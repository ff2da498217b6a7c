//! The single pass over the elements of an extract.

use super::data::{
    bounds, Coord, Element, ElementView, Node, Object, ObjectView, Road, RoadRaw, RoadRawView,
    RoadView, StreetMap, StreetMapView, Way, WayView,
};
use super::resolve::{resolve_road, roads_on_map};
use super::tags::{road_of_way, way_to_road};
use std::collections::HashMap;
use vstd::prelude::*;

verus! {

broadcast use vstd::std_specs::hash::group_hash_axioms;

/// Why an extract gave no map.
#[derive(Debug, Clone, Copy, PartialEq, Eq, Structural)]
pub enum ReadError {
    /// The extract held no node, so the map has no extent.
    NoNodes,
}

/// What has been taken from the elements seen so far.
pub struct IngestView {
    /// Where each node lies. A node seen again replaces the one before.
    pub nodes: Map<i64, Coord>,
    /// The ways taken for roads, in the order they were seen.
    pub roads: Seq<RoadRawView>,
    /// The bounding box of every node seen, if there was one.
    pub extent: Option<(Coord, Coord)>,
}

impl IngestView {
    /// Nothing seen yet.
    pub open spec fn empty() -> Self {
        IngestView { nodes: Map::empty(), roads: Seq::empty(), extent: None }
    }

    /// A node is entered in the node table and widens the bounding box.
    pub open spec fn with_node(self, node: Node) -> Self {
        IngestView {
            nodes: self.nodes.insert(node.id, node.coord),
            roads: self.roads,
            extent: Some(
                match self.extent {
                    Some((low, high)) => (low.least(node.coord), high.greatest(node.coord)),
                    None => (node.coord, node.coord),
                },
            ),
        }
    }

    /// A way that is a road is kept; any other is dropped.
    pub open spec fn with_way(self, way: WayView) -> Self {
        match road_of_way(way) {
            Some(road) => IngestView {
                nodes: self.nodes,
                roads: self.roads.push(road),
                extent: self.extent,
            },
            None => self,
        }
    }

    /// One more element seen. A relation changes nothing.
    pub open spec fn observe(self, element: ElementView) -> Self {
        match element {
            ElementView::Node(node) => self.with_node(node),
            ElementView::DenseNode(node) => self.with_node(node),
            ElementView::Way(way) => self.with_way(way),
            ElementView::Relation(_) => self,
        }
    }

    /// The map, once every element has been seen. There is none where no
    /// node was seen.
    pub open spec fn finish(self) -> Option<StreetMapView> {
        match self.extent {
            Some(extent) => Some(
                StreetMapView {
                    roads: roads_on_map(self.roads, self.nodes),
                    objects: Seq::empty(),
                    extent,
                },
            ),
            None => None,
        }
    }
}

/// What has been taken from the elements of an extract, seen in order.
pub open spec fn ingest_all(elements: Seq<ElementView>) -> IngestView
    decreases elements.len(),
{
    if elements.len() == 0 {
        IngestView::empty()
    } else {
        ingest_all(elements.drop_last()).observe(elements.last())
    }
}

/// The map that the elements of an extract give.
pub open spec fn ingested(elements: Seq<ElementView>) -> Option<StreetMapView> {
    ingest_all(elements).finish()
}

/// The node that an element is, in either encoding.
pub open spec fn node_of(element: ElementView) -> Option<Node> {
    match element {
        ElementView::Node(node) => Some(node),
        ElementView::DenseNode(node) => Some(node),
        _ => None,
    }
}

/// Whether an element is a node with the given identifier.
pub open spec fn is_node_with_id(element: ElementView, id: i64) -> bool {
    node_of(element) matches Some(node) && node.id == id
}

/// The road that an element gives: one, where it is a way that is a road.
pub open spec fn road_of(element: ElementView) -> Option<RoadRawView> {
    match element {
        ElementView::Way(way) => road_of_way(way),
        _ => None,
    }
}

/// The places of the nodes of an extract, in the order of the extract.
pub open spec fn node_places(elements: Seq<ElementView>) -> Seq<Coord>
    decreases elements.len(),
{
    if elements.len() == 0 {
        Seq::empty()
    } else {
        let before = node_places(elements.drop_last());
        match node_of(elements.last()) {
            Some(node) => before.push(node.coord),
            None => before,
        }
    }
}

/// The extent is the bounding box of the places of all nodes of the
/// extract, whether a road runs through them or not. There is no extent
/// exactly where there is no node.
pub proof fn lemma_extent_bounds_every_node(elements: Seq<ElementView>)
    ensures
        ingest_all(elements).extent == if node_places(elements).len() == 0 {
            None
        } else {
            Some(bounds(node_places(elements)))
        },
    decreases elements.len(),
{
    if elements.len() > 0 {
        lemma_extent_bounds_every_node(elements.drop_last());
        let before = node_places(elements.drop_last());
        if let Some(node) = node_of(elements.last()) {
            assert(before.push(node.coord).drop_last() == before);
        }
    }
}

/// The node table holds, for an identifier, the place of the last node of
/// the extract that has it.
pub proof fn lemma_node_table_holds_last_node(elements: Seq<ElementView>, id: i64, last: int)
    requires
        0 <= last < elements.len(),
        is_node_with_id(elements[last], id),
        forall|j: int| last < j < elements.len() ==> !is_node_with_id(#[trigger] elements[j], id),
    ensures
        ingest_all(elements).nodes.contains_key(id),
        ingest_all(elements).nodes[id] == node_of(elements[last])->0.coord,
    decreases elements.len(),
{
    if last < elements.len() - 1 {
        let before = elements.drop_last();
        assert forall|j: int| last < j < before.len() implies !is_node_with_id(
            #[trigger] before[j],
            id,
        ) by {}
        lemma_node_table_holds_last_node(before, id, last);
    }
}

/// The node table knows no identifier that no node of the extract has.
pub proof fn lemma_node_table_knows_nodes_only(elements: Seq<ElementView>, id: i64)
    requires
        forall|j: int| 0 <= j < elements.len() ==> !is_node_with_id(#[trigger] elements[j], id),
    ensures
        !ingest_all(elements).nodes.contains_key(id),
    decreases elements.len(),
{
    if elements.len() > 0 {
        let before = elements.drop_last();
        assert forall|j: int| 0 <= j < before.len() implies !is_node_with_id(
            #[trigger] before[j],
            id,
        ) by {}
        lemma_node_table_knows_nodes_only(before, id);
    }
}

/// The ways taken for roads are the ways of the extract that are roads, in
/// the order of the extract.
pub proof fn lemma_roads_are_the_road_ways(elements: Seq<ElementView>)
    ensures
        ingest_all(elements).roads == elements.filter(
            |e: ElementView| road_of(e) is Some,
        ).map_values(|e: ElementView| road_of(e)->0),
    decreases elements.len(),
{
    let is_road = |e: ElementView| road_of(e) is Some;
    let to_road = |e: ElementView| road_of(e)->0;
    reveal(Seq::filter);
    if elements.len() > 0 {
        let before = elements.drop_last();
        lemma_roads_are_the_road_ways(before);
        assert(ingest_all(elements).roads == if is_road(elements.last()) {
            ingest_all(before).roads.push(to_road(elements.last()))
        } else {
            ingest_all(before).roads
        });
        assert(elements.filter(is_road) == if is_road(elements.last()) {
            before.filter(is_road).push(elements.last())
        } else {
            before.filter(is_road)
        });
        assert(before.filter(is_road).push(elements.last()).map_values(to_road) == before.filter(
            is_road,
        ).map_values(to_road).push(to_road(elements.last())));
    }
}

/// Takes the elements of an extract one by one and builds the map from
/// them.
pub struct Ingest {
    nodes: HashMap<i64, Coord>,
    roads: Vec<RoadRaw>,
    extent: Option<(Coord, Coord)>,
}

impl View for Ingest {
    type V = IngestView;

    closed spec fn view(&self) -> IngestView {
        IngestView { nodes: self.nodes@, roads: self.roads.deep_view(), extent: self.extent }
    }
}

impl Ingest {
    /// Starts with nothing seen.
    pub fn new() -> (ingest: Self)
        ensures
            ingest@ == IngestView::empty(),
    {
        let ingest = Ingest { nodes: HashMap::new(), roads: Vec::new(), extent: None };
        assert(ingest.roads.deep_view() == Seq::<RoadRawView>::empty());
        ingest
    }

    /// How many ways have been taken for roads so far.
    pub fn road_count(&self) -> (count: usize)
        ensures
            count == self@.roads.len(),
    {
        self.roads.len()
    }

    /// Takes a node.
    fn node(&mut self, node: Node)
        ensures
            final(self)@ == old(self)@.with_node(node),
    {
        let extent = match self.extent {
            Some((low, high)) => (low.min_each(node.coord), high.max_each(node.coord)),
            None => (node.coord, node.coord),
        };
        self.extent = Some(extent);
        self.nodes.insert(node.id, node.coord);
    }

    /// Takes a way, if it is a road.
    fn way(&mut self, way: Way)
        ensures
            final(self)@ == old(self)@.with_way(way@),
    {
        let ghost before = self.roads.deep_view();
        match way_to_road(way) {
            Some(road) => {
                self.roads.push(road);
                assert(self.roads.deep_view() == before.push(road@));
            },
            None => {},
        }
    }

    /// Takes the next element of the extract.
    pub fn observe(&mut self, element: Element)
        ensures
            final(self)@ == old(self)@.observe(element@),
    {
        match element {
            Element::Node(node) => self.node(node),
            Element::DenseNode(node) => self.node(node),
            Element::Way(way) => self.way(way),
            Element::Relation(_) => {},
        }
    }

    /// Looks up the nodes of the roads and gives the map.
    ///
    /// Fails where no node was seen. A road of which fewer than two nodes
    /// are known is left out.
    pub fn finish(self) -> (map: Result<StreetMap, ReadError>)
        ensures
            match map {
                Ok(map) => self@.finish() == Some(map@),
                Err(error) => self@.finish() is None && error == ReadError::NoNodes,
            },
            map matches Ok(map) ==> forall|i: int|
                0 <= i < map.roads@.len() ==> (#[trigger] map.roads@[i])@.well_formed(),
    {
        let extent = match self.extent {
            Some(extent) => extent,
            None => { return Err(ReadError::NoNodes); },
        };
        let ghost raws = self.roads.deep_view();
        let mut roads: Vec<Road> = Vec::new();
        let mut i: usize = 0;
        while i < self.roads.len()
            invariant
                raws == self.roads.deep_view(),
                i <= self.roads@.len(),
                roads.deep_view() == roads_on_map(raws.take(i as int), self.nodes@),
                forall|j: int| 0 <= j < roads@.len() ==> (#[trigger] roads@[j])@.well_formed(),
            decreases self.roads@.len() - i,
        {
            let ghost before = roads.deep_view();
            assert(raws.take(i + 1).drop_last() == raws.take(i as int));
            match resolve_road(&self.roads[i], &self.nodes) {
                Some(road) => {
                    roads.push(road);
                },
                None => {},
            }
            i += 1;
        }
        assert(raws.take(i as int) == raws);
        let objects: Vec<Object> = Vec::new();
        assert(objects.deep_view() == Seq::<ObjectView>::empty());
        Ok(StreetMap { roads, objects, extent })
    }
}

/// Builds the map from the elements of an extract, taken in order.
///
/// The roads of the map are the ways that carry a `highway` tag and are
/// open to cars, in the order of the extract, each with the places of its
/// known nodes in the way's order and with the bounding box of those
/// places. The extent of the map is the bounding box of all nodes, whether
/// a road runs through them or not. An extract without nodes gives
/// [`ReadError::NoNodes`].
pub fn read_osm_pbf(elements: Vec<Element>) -> (map: Result<StreetMap, ReadError>)
    ensures
        match map {
            Ok(map) => ingested(elements.deep_view()) == Some(map@),
            Err(error) => ingested(elements.deep_view()) is None && error == ReadError::NoNodes,
        },
        map matches Ok(map) ==> forall|i: int|
            0 <= i < map.roads@.len() ==> (#[trigger] map.roads@[i])@.well_formed(),
{
    let ghost all = elements.deep_view();
    let mut ingest = Ingest::new();
    for element in it: elements
        invariant
            all == elements.deep_view(),
            ingest@ == ingest_all(all.take(it.index() as int)),
    {
        assert(all.take(it.index() + 1).drop_last() == all.take(it.index() as int));
        ingest.observe(element);
    }
    assert(all.take(elements@.len() as int) == all);
    ingest.finish()
}

} // verus!
