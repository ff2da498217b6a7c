use vstd::prelude::*;

verus! {

/// A point on the globe. Latitude and longitude are whole numbers of
/// nanodegrees (billionths of a degree), the unit in which extracts store
/// them.
#[derive(Debug, Clone, Copy, PartialEq, Eq, Structural)]
pub struct Coord {
    pub lat: i64,
    pub lon: i64,
}

impl Coord {
    /// The lesser latitude and the lesser longitude of two points.
    pub open spec fn least(self, other: Self) -> Self {
        Coord {
            lat: if self.lat <= other.lat { self.lat } else { other.lat },
            lon: if self.lon <= other.lon { self.lon } else { other.lon },
        }
    }

    /// The greater latitude and the greater longitude of two points.
    pub open spec fn greatest(self, other: Self) -> Self {
        Coord {
            lat: if self.lat >= other.lat { self.lat } else { other.lat },
            lon: if self.lon >= other.lon { self.lon } else { other.lon },
        }
    }

    /// The lesser latitude and the lesser longitude of the two points.
    pub fn min_each(self, other: Self) -> (least: Self)
        ensures
            least == self.least(other),
    {
        Self {
            lat: if self.lat <= other.lat { self.lat } else { other.lat },
            lon: if self.lon <= other.lon { self.lon } else { other.lon },
        }
    }

    /// The greater latitude and the greater longitude of the two points.
    pub fn max_each(self, other: Self) -> (greatest: Self)
        ensures
            greatest == self.greatest(other),
    {
        Self {
            lat: if self.lat >= other.lat { self.lat } else { other.lat },
            lon: if self.lon >= other.lon { self.lon } else { other.lon },
        }
    }
}

impl Default for Coord {
    fn default() -> (coord: Self)
        ensures
            coord == (Coord { lat: 0, lon: 0 }),
    {
        Coord { lat: 0, lon: 0 }
    }
}

/// The bounding box of some points: the least latitude and longitude
/// among them, and the greatest.
pub open spec fn bounds(points: Seq<Coord>) -> (Coord, Coord)
    recommends
        points.len() > 0,
    decreases points.len(),
{
    if points.len() <= 1 {
        (points[0], points[0])
    } else {
        let (low, high) = bounds(points.drop_last());
        (low.least(points.last()), high.greatest(points.last()))
    }
}

/// The bounding box holds every point, and each of its four sides passes
/// through one of them.
pub proof fn lemma_bounds_are_tight(points: Seq<Coord>)
    requires
        points.len() > 0,
    ensures
        forall|i: int|
            0 <= i < points.len() ==> {
                &&& bounds(points).0.lat <= (#[trigger] points[i]).lat <= bounds(points).1.lat
                &&& bounds(points).0.lon <= points[i].lon <= bounds(points).1.lon
            },
        exists|i: int| 0 <= i < points.len() && (#[trigger] points[i]).lat == bounds(points).0.lat,
        exists|i: int| 0 <= i < points.len() && (#[trigger] points[i]).lon == bounds(points).0.lon,
        exists|i: int| 0 <= i < points.len() && (#[trigger] points[i]).lat == bounds(points).1.lat,
        exists|i: int| 0 <= i < points.len() && (#[trigger] points[i]).lon == bounds(points).1.lon,
    decreases points.len(),
{
    if points.len() <= 1 {
        assert(points[0].lat == bounds(points).0.lat);
    } else {
        let before = points.drop_last();
        let last = points.len() - 1;
        lemma_bounds_are_tight(before);
        assert forall|i: int| 0 <= i < points.len() implies {
            &&& bounds(points).0.lat <= (#[trigger] points[i]).lat <= bounds(points).1.lat
            &&& bounds(points).0.lon <= points[i].lon <= bounds(points).1.lon
        } by {
            if i < last {
                assert(points[i] == before[i]);
            }
        }
        let (low, high) = bounds(before);
        let n = before.len();
        let a = choose|i: int| 0 <= i < n && (#[trigger] before[i]).lat == low.lat;
        let b = choose|i: int| 0 <= i < n && (#[trigger] before[i]).lon == low.lon;
        let c = choose|i: int| 0 <= i < n && (#[trigger] before[i]).lat == high.lat;
        let d = choose|i: int| 0 <= i < n && (#[trigger] before[i]).lon == high.lon;
        assert(points[a] == before[a] && points[b] == before[b] && points[c] == before[c]
            && points[d] == before[d]);
        let a = if points[last].lat <= low.lat { last } else { a };
        let b = if points[last].lon <= low.lon { last } else { b };
        let c = if points[last].lat >= high.lat { last } else { c };
        let d = if points[last].lon >= high.lon { last } else { d };
    }
}

/// A node of the extract: an identifier and where it lies.
#[derive(Debug, Clone, Copy, PartialEq, Eq, Structural)]
pub struct Node {
    pub id: i64,
    pub coord: Coord,
}

/// The keys and values of an element's tags, in the order of the extract.
pub type Tags = Seq<(Seq<char>, Seq<char>)>;

/// A way of the extract: an identifier, the identifiers of the nodes it
/// runs through, in order, and its tags.
#[derive(Debug)]
pub struct Way {
    pub id: i64,
    pub refs: Vec<i64>,
    pub tags: Vec<(String, String)>,
}

/// What a [`Way`] holds, as values.
pub struct WayView {
    pub id: i64,
    pub refs: Seq<i64>,
    pub tags: Tags,
}

impl View for Way {
    type V = WayView;

    open spec fn view(&self) -> WayView {
        WayView { id: self.id, refs: self.refs@, tags: self.tags.deep_view() }
    }
}

impl DeepView for Way {
    type V = WayView;

    open spec fn deep_view(&self) -> WayView {
        self@
    }
}

/// One element of an extract. Nodes come in two encodings, which mean the
/// same; of a relation only the identifier is kept.
#[derive(Debug)]
pub enum Element {
    Node(Node),
    DenseNode(Node),
    Way(Way),
    Relation(i64),
}

/// What an [`Element`] holds, as values.
pub enum ElementView {
    Node(Node),
    DenseNode(Node),
    Way(WayView),
    Relation(i64),
}

impl View for Element {
    type V = ElementView;

    open spec fn view(&self) -> ElementView {
        match self {
            Element::Node(node) => ElementView::Node(*node),
            Element::DenseNode(node) => ElementView::DenseNode(*node),
            Element::Way(way) => ElementView::Way(way@),
            Element::Relation(id) => ElementView::Relation(*id),
        }
    }
}

impl DeepView for Element {
    type V = ElementView;

    open spec fn deep_view(&self) -> ElementView {
        self@
    }
}

/// A way that was taken for a road, before its nodes are looked up.
#[derive(Debug)]
pub struct RoadRaw {
    pub id: i64,
    pub nodes: Vec<i64>,
    /// The value of the `highway` tag.
    pub kind: String,
    /// In millimetres.
    pub width: u32,
    pub speedlimit: u8,
}

/// What a [`RoadRaw`] holds, as values.
pub struct RoadRawView {
    pub id: i64,
    pub nodes: Seq<i64>,
    pub kind: Seq<char>,
    pub width: u32,
    pub speedlimit: u8,
}

impl View for RoadRaw {
    type V = RoadRawView;

    open spec fn view(&self) -> RoadRawView {
        RoadRawView {
            id: self.id,
            nodes: self.nodes@,
            kind: self.kind@,
            width: self.width,
            speedlimit: self.speedlimit,
        }
    }
}

impl DeepView for RoadRaw {
    type V = RoadRawView;

    open spec fn deep_view(&self) -> RoadRawView {
        self@
    }
}

/// A road with its geometry: at least two points.
#[derive(Debug)]
pub struct Road {
    /// The corners of the bounding box of the points: first the least
    /// latitude and longitude, then the greatest.
    pub extent: (Coord, Coord),
    pub points: Vec<Coord>,
    /// In millimetres.
    pub width: u32,
    pub speedlimit: u8,
}

/// What a [`Road`] holds, as values.
pub struct RoadView {
    pub extent: (Coord, Coord),
    pub points: Seq<Coord>,
    pub width: u32,
    pub speedlimit: u8,
}

impl RoadView {
    /// A road has two points at least, and its extent is their bounding
    /// box.
    pub open spec fn well_formed(self) -> bool {
        &&& self.points.len() >= 2
        &&& self.extent == bounds(self.points)
    }
}

impl View for Road {
    type V = RoadView;

    open spec fn view(&self) -> RoadView {
        RoadView {
            extent: self.extent,
            points: self.points@,
            width: self.width,
            speedlimit: self.speedlimit,
        }
    }
}

impl DeepView for Road {
    type V = RoadView;

    open spec fn deep_view(&self) -> RoadView {
        self@
    }
}

impl Default for Road {
    fn default() -> (road: Self)
        ensures
            road@ == (RoadView {
                extent: (Coord { lat: 0, lon: 0 }, Coord { lat: 0, lon: 0 }),
                points: Seq::empty(),
                width: 0,
                speedlimit: 0,
            }),
    {
        Road {
            extent: (Coord { lat: 0, lon: 0 }, Coord { lat: 0, lon: 0 }),
            points: Vec::new(),
            width: 0,
            speedlimit: 0,
        }
    }
}

/// What kind of feature an [`Object`] is.
#[derive(Debug, Clone, Copy, PartialEq, Eq, Structural)]
pub enum ObjectKind {
    Generic,
    Grass,
    Water,
    Building,
}

/// A feature of the map that is not a road.
#[derive(Debug)]
pub struct Object {
    pub kind: ObjectKind,
    pub shape: Vec<Coord>,
}

/// What an [`Object`] holds, as values.
pub struct ObjectView {
    pub kind: ObjectKind,
    pub shape: Seq<Coord>,
}

impl View for Object {
    type V = ObjectView;

    open spec fn view(&self) -> ObjectView {
        ObjectView { kind: self.kind, shape: self.shape@ }
    }
}

impl DeepView for Object {
    type V = ObjectView;

    open spec fn deep_view(&self) -> ObjectView {
        self@
    }
}

/// What was read from an extract.
#[derive(Debug)]
pub struct StreetMap {
    pub roads: Vec<Road>,
    /// Always empty: no feature but roads is read so far.
    pub objects: Vec<Object>,
    /// The corners of the bounding box of every node that was seen: first
    /// the least latitude and longitude, then the greatest.
    pub extent: (Coord, Coord),
}

/// What a [`StreetMap`] holds, as values.
pub struct StreetMapView {
    pub roads: Seq<RoadView>,
    pub objects: Seq<ObjectView>,
    pub extent: (Coord, Coord),
}

impl View for StreetMap {
    type V = StreetMapView;

    open spec fn view(&self) -> StreetMapView {
        StreetMapView {
            roads: self.roads.deep_view(),
            objects: self.objects.deep_view(),
            extent: self.extent,
        }
    }
}

impl DeepView for StreetMap {
    type V = StreetMapView;

    open spec fn deep_view(&self) -> StreetMapView {
        self@
    }
}

} // verus!
