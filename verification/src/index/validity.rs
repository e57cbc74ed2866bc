//! Structural validity of a persisted graph.

use crate::index::error::{invalid_data, invalid_data_error, ErrorModel, IndexError, IndexErrorKind};
use crate::index::graph::{
    links_in_range, nodes_model, HnswIndexSidecar, HnswNode, NodeModel, SidecarModel,
};
use crate::text::{decimal, decimal_text};
use vstd::prelude::*;
use vstd::string::*;

verus! {

/// What is wrong with one neighbor reference on `layer` of `node`, if anything.
pub open spec fn link_fault(nodes: Seq<NodeModel>, node: int, layer: int, neighbor: u32) -> Option<
    ErrorModel,
> {
    if neighbor >= nodes.len() {
        Some(
            invalid_data(
                "node "@ + decimal(node as nat) + " layer "@ + decimal(layer as nat)
                    + " references out-of-range neighbor "@ + decimal(neighbor as nat),
            ),
        )
    } else if nodes[neighbor as int].level < layer {
        Some(
            invalid_data(
                "node "@ + decimal(node as nat) + " layer "@ + decimal(layer as nat)
                    + " references neighbor "@ + decimal(neighbor as nat) + " below that layer"@,
            ),
        )
    } else {
        None
    }
}

/// The fault of the earliest faulty reference among the first `count` on `layer`.
pub open spec fn list_fault(nodes: Seq<NodeModel>, node: int, layer: int, count: nat) -> Option<
    ErrorModel,
>
    decreases count,
{
    if count == 0 {
        None
    } else {
        match list_fault(nodes, node, layer, (count - 1) as nat) {
            Some(fault) => Some(fault),
            None => link_fault(nodes, node, layer, nodes[node].neighbors[layer][count - 1]),
        }
    }
}

/// The fault of the earliest faulty list among the first `count` of `node`.
pub open spec fn lists_fault(nodes: Seq<NodeModel>, node: int, count: nat) -> Option<ErrorModel>
    decreases count,
{
    if count == 0 {
        None
    } else {
        match lists_fault(nodes, node, (count - 1) as nat) {
            Some(fault) => Some(fault),
            None => list_fault(nodes, node, count - 1, nodes[node].neighbors[count - 1].len()),
        }
    }
}

/// What is wrong with one node, if anything.
pub open spec fn node_fault(nodes: Seq<NodeModel>, node: int) -> Option<ErrorModel> {
    if nodes[node].neighbors.len() != nodes[node].level + 1 {
        Some(
            invalid_data(
                "node "@ + decimal(node as nat) + " level "@ + decimal(nodes[node].level as nat)
                    + " expected "@ + decimal((nodes[node].level + 1) as nat)
                    + " neighbor lists but found "@ + decimal(nodes[node].neighbors.len()),
            ),
        )
    } else {
        lists_fault(nodes, node, nodes[node].neighbors.len())
    }
}

/// The fault of the earliest faulty node among the first `count`.
pub open spec fn nodes_fault(nodes: Seq<NodeModel>, count: nat) -> Option<ErrorModel>
    decreases count,
{
    if count == 0 {
        None
    } else {
        match nodes_fault(nodes, (count - 1) as nat) {
            Some(fault) => Some(fault),
            None => node_fault(nodes, count - 1),
        }
    }
}

/// What is wrong with the entry point, if anything.
pub open spec fn entry_fault(sidecar: SidecarModel) -> Option<ErrorModel> {
    match sidecar.entry_point {
        None => if sidecar.nodes.len() > 0 {
            Some(invalid_data("non-empty hnsw sidecar is missing an entry point"@))
        } else {
            None
        },
        Some(entry) => if entry >= sidecar.nodes.len() {
            Some(
                invalid_data(
                    "entry point "@ + decimal(entry as nat) + " is out of range for "@ + decimal(
                        sidecar.nodes.len(),
                    ) + " nodes"@,
                ),
            )
        } else if sidecar.nodes[entry as int].level != sidecar.max_level {
            Some(
                invalid_data(
                    "entry point level "@ + decimal(sidecar.nodes[entry as int].level as nat)
                        + " does not match max level "@ + decimal(sidecar.max_level as nat),
                ),
            )
        } else {
            None
        },
    }
}

/// What is wrong with the graph of a sidecar, if anything.
pub open spec fn graph_fault(sidecar: SidecarModel) -> Option<ErrorModel> {
    match entry_fault(sidecar) {
        Some(fault) => Some(fault),
        None => nodes_fault(sidecar.nodes, sidecar.nodes.len()),
    }
}

/// Whether the links of a graph are sound: each node has one list per layer up
/// to its level, and each reference on a layer names a node that reaches it.
pub open spec fn sound_links(nodes: Seq<NodeModel>) -> bool {
    &&& forall|node: int|
        0 <= node < nodes.len() ==> (#[trigger] nodes[node]).neighbors.len() == nodes[node].level
            + 1
    &&& forall|node: int, layer: int, k: int|
        #![trigger nodes[node].neighbors[layer][k]]
        0 <= node < nodes.len() && 0 <= layer < nodes[node].neighbors.len() && 0 <= k
            < nodes[node].neighbors[layer].len() ==> {
            &&& nodes[node].neighbors[layer][k] < nodes.len()
            &&& layer <= nodes[nodes[node].neighbors[layer][k] as int].level
        }
}

/// Whether a sidecar is a sound graph that is entered at its top.
pub open spec fn sound_graph(sidecar: SidecarModel) -> bool {
    &&& sound_links(sidecar.nodes)
    &&& match sidecar.entry_point {
        None => sidecar.nodes.len() == 0,
        Some(entry) => entry < sidecar.nodes.len() && sidecar.nodes[entry as int].level
            == sidecar.max_level,
    }
}

/// Whether no node of a sidecar is above its highest level.
pub open spec fn levels_capped(sidecar: SidecarModel) -> bool {
    forall|i: int|
        0 <= i < sidecar.nodes.len() ==> (#[trigger] sidecar.nodes[i]).level <= sidecar.max_level
}

proof fn lemma_list_fault_stays(
    nodes: Seq<NodeModel>,
    node: int,
    layer: int,
    early: nat,
    late: nat,
)
    requires
        early <= late,
        list_fault(nodes, node, layer, early) is Some,
    ensures
        list_fault(nodes, node, layer, late) == list_fault(nodes, node, layer, early),
    decreases late,
{
    if early < late {
        lemma_list_fault_stays(nodes, node, layer, early, (late - 1) as nat);
    }
}

proof fn lemma_lists_fault_stays(nodes: Seq<NodeModel>, node: int, early: nat, late: nat)
    requires
        early <= late,
        lists_fault(nodes, node, early) is Some,
    ensures
        lists_fault(nodes, node, late) == lists_fault(nodes, node, early),
    decreases late,
{
    if early < late {
        lemma_lists_fault_stays(nodes, node, early, (late - 1) as nat);
    }
}

proof fn lemma_nodes_fault_stays(nodes: Seq<NodeModel>, early: nat, late: nat)
    requires
        early <= late,
        nodes_fault(nodes, early) is Some,
    ensures
        nodes_fault(nodes, late) == nodes_fault(nodes, early),
    decreases late,
{
    if early < late {
        lemma_nodes_fault_stays(nodes, early, (late - 1) as nat);
    }
}

proof fn lemma_list_fault_iff(nodes: Seq<NodeModel>, node: int, layer: int, count: nat)
    ensures
        list_fault(nodes, node, layer, count) is None <==> forall|k: int|
            0 <= k < count ==> link_fault(
                nodes,
                node,
                layer,
                #[trigger] nodes[node].neighbors[layer][k],
            ) is None,
    decreases count,
{
    if count > 0 {
        lemma_list_fault_iff(nodes, node, layer, (count - 1) as nat);
    }
}

proof fn lemma_lists_fault_iff(nodes: Seq<NodeModel>, node: int, count: nat)
    ensures
        lists_fault(nodes, node, count) is None <==> forall|layer: int|
            0 <= layer < count ==> list_fault(
                nodes,
                node,
                layer,
                (#[trigger] nodes[node].neighbors[layer]).len(),
            ) is None,
    decreases count,
{
    if count > 0 {
        lemma_lists_fault_iff(nodes, node, (count - 1) as nat);
    }
}

proof fn lemma_nodes_fault_iff(nodes: Seq<NodeModel>, count: nat)
    ensures
        nodes_fault(nodes, count) is None <==> forall|node: int|
            0 <= node < count ==> #[trigger] node_fault(nodes, node) is None,
    decreases count,
{
    if count > 0 {
        lemma_nodes_fault_iff(nodes, (count - 1) as nat);
        if nodes_fault(nodes, count) is None {
            assert forall|node: int| 0 <= node < count implies #[trigger] node_fault(
                nodes,
                node,
            ) is None by {
                if node == count - 1 {
                    assert(node_fault(nodes, count - 1) is None);
                }
            }
        } else if nodes_fault(nodes, (count - 1) as nat) is None {
            assert(node_fault(nodes, count - 1) is Some);
        }
    }
}

/// A graph passes validation exactly when it is sound.
pub proof fn law_no_fault_iff_sound(sidecar: SidecarModel)
    ensures
        graph_fault(sidecar) is None <==> sound_graph(sidecar),
{
    let nodes = sidecar.nodes;
    lemma_nodes_fault_iff(nodes, nodes.len());
    assert forall|node: int| 0 <= node < nodes.len() implies (#[trigger] node_fault(
        nodes,
        node,
    ) is None <==> {
        &&& nodes[node].neighbors.len() == nodes[node].level + 1
        &&& forall|layer: int, k: int|
            #![trigger nodes[node].neighbors[layer][k]]
            0 <= layer < nodes[node].neighbors.len() && 0 <= k
                < nodes[node].neighbors[layer].len() ==> link_fault(
                nodes,
                node,
                layer,
                nodes[node].neighbors[layer][k],
            ) is None
    }) by {
        lemma_lists_fault_iff(nodes, node, nodes[node].neighbors.len());
        assert forall|layer: int| 0 <= layer < nodes[node].neighbors.len() implies (list_fault(
            nodes,
            node,
            layer,
            (#[trigger] nodes[node].neighbors[layer]).len(),
        ) is None <==> forall|k: int|
            0 <= k < nodes[node].neighbors[layer].len() ==> link_fault(
                nodes,
                node,
                layer,
                #[trigger] nodes[node].neighbors[layer][k],
            ) is None) by {
            lemma_list_fault_iff(nodes, node, layer, nodes[node].neighbors[layer].len());
        }
    }
    if graph_fault(sidecar) is None {
        assert forall|node: int, layer: int, k: int|
            #![trigger nodes[node].neighbors[layer][k]]
            0 <= node < nodes.len() && 0 <= layer < nodes[node].neighbors.len() && 0 <= k
                < nodes[node].neighbors[layer].len() implies {
            &&& nodes[node].neighbors[layer][k] < nodes.len()
            &&& layer <= nodes[nodes[node].neighbors[layer][k] as int].level
        } by {
            assert(node_fault(nodes, node) is None);
            assert(link_fault(nodes, node, layer, nodes[node].neighbors[layer][k]) is None);
        }
        assert forall|node: int| 0 <= node < nodes.len() implies (
        #[trigger] nodes[node]).neighbors.len() == nodes[node].level + 1 by {
            assert(node_fault(nodes, node) is None);
        }
    }
    if sound_graph(sidecar) {
        assert forall|node: int| 0 <= node < nodes.len() implies #[trigger] node_fault(
            nodes,
            node,
        ) is None by {
            assert forall|layer: int, k: int|
                #![trigger nodes[node].neighbors[layer][k]]
                0 <= layer < nodes[node].neighbors.len() && 0 <= k
                    < nodes[node].neighbors[layer].len() implies link_fault(
                nodes,
                node,
                layer,
                nodes[node].neighbors[layer][k],
            ) is None by {}
        }
    }
}

/// The outcome of validation as its model gives it.
pub open spec fn reports_fault(outcome: Result<(), IndexError>, fault: Option<ErrorModel>) -> bool {
    match (outcome, fault) {
        (Ok(_), None) => true,
        (Err(error), Some(expected)) => error@ == expected,
        _ => false,
    }
}

fn validate_link(nodes: &Vec<HnswNode>, node_index: usize, layer: usize, neighbor: u32) -> (outcome:
    Result<(), IndexError>)
    ensures
        reports_fault(
            outcome,
            link_fault(nodes_model(nodes@), node_index as int, layer as int, neighbor),
        ),
{
    let neighbor_index: usize = neighbor as usize;
    if neighbor_index >= nodes.len() {
        let mut message = "node ".to_owned();
        message.append(&decimal_text(node_index as u64));
        message.append(" layer ");
        message.append(&decimal_text(layer as u64));
        message.append(" references out-of-range neighbor ");
        message.append(&decimal_text(neighbor as u64));
        return Err(invalid_data_error(message));
    }
    if (nodes[neighbor_index].level as usize) < layer {
        let mut message = "node ".to_owned();
        message.append(&decimal_text(node_index as u64));
        message.append(" layer ");
        message.append(&decimal_text(layer as u64));
        message.append(" references neighbor ");
        message.append(&decimal_text(neighbor as u64));
        message.append(" below that layer");
        return Err(invalid_data_error(message));
    }
    Ok(())
}

fn validate_node(nodes: &Vec<HnswNode>, node_index: usize) -> (outcome: Result<(), IndexError>)
    requires
        node_index < nodes@.len(),
    ensures
        reports_fault(outcome, node_fault(nodes_model(nodes@), node_index as int)),
{
    let ghost model = nodes_model(nodes@);
    let node = &nodes[node_index];
    let lists = &node.neighbors_by_level;
    if lists.len() != node.level as usize + 1 {
        let mut message = "node ".to_owned();
        message.append(&decimal_text(node_index as u64));
        message.append(" level ");
        message.append(&decimal_text(node.level as u64));
        message.append(" expected ");
        message.append(&decimal_text(node.level as u64 + 1));
        message.append(" neighbor lists but found ");
        message.append(&decimal_text(lists.len() as u64));
        return Err(invalid_data_error(message));
    }
    let mut layer: usize = 0;
    while layer < lists.len()
        invariant
            node_index < nodes@.len(),
            model == nodes_model(nodes@),
            lists@ == nodes@[node_index as int].neighbors_by_level@,
            model[node_index as int].neighbors.len() == model[node_index as int].level + 1,
            layer <= lists@.len(),
            lists_fault(model, node_index as int, layer as nat) is None,
        decreases lists@.len() - layer,
    {
        let list = &lists[layer];
        let mut k: usize = 0;
        while k < list.len()
            invariant
                node_index < nodes@.len(),
                model == nodes_model(nodes@),
                lists@ == nodes@[node_index as int].neighbors_by_level@,
                model[node_index as int].neighbors.len() == model[node_index as int].level + 1,
                layer < lists@.len(),
                list@ == lists@[layer as int]@,
                k <= list@.len(),
                lists_fault(model, node_index as int, layer as nat) is None,
                list_fault(model, node_index as int, layer as int, k as nat) is None,
            decreases list@.len() - k,
        {
            let outcome = validate_link(nodes, node_index, layer, list[k]);
            assert(model[node_index as int].neighbors[layer as int] == list@);
            if outcome.is_err() {
                proof {
                    lemma_list_fault_stays(
                        model,
                        node_index as int,
                        layer as int,
                        (k + 1) as nat,
                        list@.len(),
                    );
                    lemma_lists_fault_stays(
                        model,
                        node_index as int,
                        (layer + 1) as nat,
                        lists@.len(),
                    );
                }
                return outcome;
            }
            k = k + 1;
        }
        assert(model[node_index as int].neighbors[layer as int] == list@);
        layer = layer + 1;
    }
    Ok(())
}

/// Check that a sidecar holds a sound graph.
pub fn validate_hnsw_index(sidecar: &HnswIndexSidecar) -> (outcome: Result<(), IndexError>)
    ensures
        reports_fault(outcome, graph_fault(sidecar@)),
{
    let nodes = &sidecar.nodes;
    match sidecar.entry_point {
        None => {
            if nodes.len() > 0 {
                return Err(
                    invalid_data_error(
                        "non-empty hnsw sidecar is missing an entry point".to_owned(),
                    ),
                );
            }
        },
        Some(entry_point) => {
            if entry_point as usize >= nodes.len() {
                let mut message = "entry point ".to_owned();
                message.append(&decimal_text(entry_point as u64));
                message.append(" is out of range for ");
                message.append(&decimal_text(nodes.len() as u64));
                message.append(" nodes");
                return Err(invalid_data_error(message));
            }
            let level: u8 = nodes[entry_point as usize].level;
            if level != sidecar.max_level {
                let mut message = "entry point level ".to_owned();
                message.append(&decimal_text(level as u64));
                message.append(" does not match max level ");
                message.append(&decimal_text(sidecar.max_level as u64));
                return Err(invalid_data_error(message));
            }
        },
    }
    let mut index: usize = 0;
    while index < nodes.len()
        invariant
            nodes@ == sidecar.nodes@,
            index <= nodes@.len(),
            entry_fault(sidecar@) is None,
            nodes_fault(nodes_model(nodes@), index as nat) is None,
        decreases nodes@.len() - index,
    {
        let outcome = validate_node(nodes, index);
        if outcome.is_err() {
            proof {
                lemma_nodes_fault_stays(nodes_model(nodes@), (index + 1) as nat, nodes@.len());
            }
            return outcome;
        }
        index = index + 1;
    }
    Ok(())
}

/// In a sound graph every reference names a node.
pub proof fn lemma_sound_links_in_range(nodes: Seq<NodeModel>)
    requires
        sound_links(nodes),
    ensures
        links_in_range(nodes),
{
}

/// A graph is accepted exactly when it is entered at a node of the highest level, each node has
/// one neighbor list for each layer up to its own, and each reference on a layer names a node
/// that reaches that layer.
pub proof fn law_graphs_are_accepted(sidecar: SidecarModel)
    ensures
        graph_fault(sidecar) is None <==> {
            &&& sidecar.entry_point is None <==> sidecar.nodes.len() == 0
            &&& sidecar.entry_point matches Some(entry) ==> entry < sidecar.nodes.len()
                && sidecar.nodes[entry as int].level == sidecar.max_level
            &&& forall|node: int|
                0 <= node < sidecar.nodes.len() ==> (#[trigger] sidecar.nodes[node]).neighbors.len()
                    == sidecar.nodes[node].level + 1
            &&& forall|node: int, layer: int, k: int|
                #![trigger sidecar.nodes[node].neighbors[layer][k]]
                0 <= node < sidecar.nodes.len() && 0 <= layer
                    < sidecar.nodes[node].neighbors.len() && 0 <= k
                    < sidecar.nodes[node].neighbors[layer].len() ==> {
                    &&& sidecar.nodes[node].neighbors[layer][k] < sidecar.nodes.len()
                    &&& sidecar.nodes[sidecar.nodes[node].neighbors[layer][k] as int].level >= layer
                }
        },
{
    law_no_fault_iff_sound(sidecar);
}

/// The entry point is looked at before anything else, and what is wrong with it is named.
pub proof fn law_entry_points_are_looked_at_first(sidecar: SidecarModel)
    ensures
        sidecar.entry_point is None && sidecar.nodes.len() > 0 ==> graph_fault(sidecar) == Some(
            (ErrorModel {
                kind: IndexErrorKind::InvalidData,
                message: "non-empty hnsw sidecar is missing an entry point"@,
            }),
        ),
        sidecar.entry_point matches Some(entry) ==> {
            &&& entry >= sidecar.nodes.len() ==> graph_fault(sidecar) == Some(
                (ErrorModel {
                    kind: IndexErrorKind::InvalidData,
                    message: "entry point "@ + decimal(entry as nat) + " is out of range for "@
                        + decimal(sidecar.nodes.len()) + " nodes"@,
                }),
            )
            &&& entry < sidecar.nodes.len() && sidecar.nodes[entry as int].level
                != sidecar.max_level ==> graph_fault(sidecar) == Some(
                (ErrorModel {
                    kind: IndexErrorKind::InvalidData,
                    message: "entry point level "@ + decimal(
                        sidecar.nodes[entry as int].level as nat,
                    ) + " does not match max level "@ + decimal(sidecar.max_level as nat),
                }),
            )
        },
{
}

proof fn lemma_node_passes(nodes: Seq<NodeModel>, node: int)
    requires
        0 <= node < nodes.len(),
        nodes[node].neighbors.len() == nodes[node].level + 1,
        forall|layer: int, k: int|
            #![trigger nodes[node].neighbors[layer][k]]
            0 <= layer < nodes[node].neighbors.len() && 0 <= k
                < nodes[node].neighbors[layer].len() ==> {
                &&& nodes[node].neighbors[layer][k] < nodes.len()
                &&& nodes[nodes[node].neighbors[layer][k] as int].level >= layer
            },
    ensures
        node_fault(nodes, node) is None,
{
    lemma_lists_fault_iff(nodes, node, nodes[node].neighbors.len());
    assert forall|layer: int| 0 <= layer < nodes[node].neighbors.len() implies list_fault(
        nodes,
        node,
        layer,
        (#[trigger] nodes[node].neighbors[layer]).len(),
    ) is None by {
        lemma_list_fault_iff(nodes, node, layer, nodes[node].neighbors[layer].len());
    }
}

proof fn lemma_nodes_pass(nodes: Seq<NodeModel>, count: int)
    requires
        0 <= count <= nodes.len(),
        forall|n: int|
            0 <= n < count ==> (#[trigger] nodes[n]).neighbors.len() == nodes[n].level + 1,
        forall|n: int, layer: int, k: int|
            #![trigger nodes[n].neighbors[layer][k]]
            0 <= n < count && 0 <= layer < nodes[n].neighbors.len() && 0 <= k
                < nodes[n].neighbors[layer].len() ==> {
                &&& nodes[n].neighbors[layer][k] < nodes.len()
                &&& nodes[nodes[n].neighbors[layer][k] as int].level >= layer
            },
    ensures
        nodes_fault(nodes, count as nat) is None,
{
    lemma_nodes_fault_iff(nodes, count as nat);
    assert forall|n: int| 0 <= n < count implies #[trigger] node_fault(nodes, n) is None by {
        lemma_node_passes(nodes, n);
    }
}

/// Of a graph with a proper entry point, the first node without one list for each layer is named,
/// where nothing is wrong with the nodes before it.
pub proof fn law_missing_lists_are_named(sidecar: SidecarModel, node: int)
    requires
        sidecar.entry_point matches Some(entry) && entry < sidecar.nodes.len()
            && sidecar.nodes[entry as int].level == sidecar.max_level,
        0 <= node < sidecar.nodes.len(),
        sidecar.nodes[node].neighbors.len() != sidecar.nodes[node].level + 1,
        forall|n: int|
            0 <= n < node ==> (#[trigger] sidecar.nodes[n]).neighbors.len()
                == sidecar.nodes[n].level + 1,
        forall|n: int, layer: int, k: int|
            #![trigger sidecar.nodes[n].neighbors[layer][k]]
            0 <= n < node && 0 <= layer < sidecar.nodes[n].neighbors.len() && 0 <= k
                < sidecar.nodes[n].neighbors[layer].len() ==> {
                &&& sidecar.nodes[n].neighbors[layer][k] < sidecar.nodes.len()
                &&& sidecar.nodes[sidecar.nodes[n].neighbors[layer][k] as int].level >= layer
            },
    ensures
        graph_fault(sidecar) == Some(
            (ErrorModel {
                kind: IndexErrorKind::InvalidData,
                message: "node "@ + decimal(node as nat) + " level "@ + decimal(
                    sidecar.nodes[node].level as nat,
                ) + " expected "@ + decimal((sidecar.nodes[node].level + 1) as nat)
                    + " neighbor lists but found "@ + decimal(sidecar.nodes[node].neighbors.len()),
            }),
        ),
{
    let nodes = sidecar.nodes;
    lemma_nodes_pass(nodes, node);
    assert(nodes_fault(nodes, (node + 1) as nat) == node_fault(nodes, node));
    lemma_nodes_fault_stays(nodes, (node + 1) as nat, nodes.len());
}

/// Of a graph with a proper entry point, the first reference that cannot be followed is named,
/// where nothing is wrong with what precedes it.
pub proof fn law_broken_references_are_named(sidecar: SidecarModel, node: int, layer: int, k: int)
    requires
        sidecar.entry_point matches Some(entry) && entry < sidecar.nodes.len()
            && sidecar.nodes[entry as int].level == sidecar.max_level,
        0 <= node < sidecar.nodes.len(),
        0 <= layer < sidecar.nodes[node].neighbors.len(),
        0 <= k < sidecar.nodes[node].neighbors[layer].len(),
        forall|n: int|
            0 <= n <= node ==> (#[trigger] sidecar.nodes[n]).neighbors.len()
                == sidecar.nodes[n].level + 1,
        forall|n: int, l: int, j: int|
            #![trigger sidecar.nodes[n].neighbors[l][j]]
            0 <= n <= node && 0 <= l < sidecar.nodes[n].neighbors.len() && 0 <= j
                < sidecar.nodes[n].neighbors[l].len() && (n < node || l < layer || (l == layer && j
                < k)) ==> {
                &&& sidecar.nodes[n].neighbors[l][j] < sidecar.nodes.len()
                &&& sidecar.nodes[sidecar.nodes[n].neighbors[l][j] as int].level >= l
            },
    ensures
        ({
            let neighbor = sidecar.nodes[node].neighbors[layer][k];
            &&& neighbor >= sidecar.nodes.len() ==> graph_fault(sidecar) == Some(
                (ErrorModel {
                    kind: IndexErrorKind::InvalidData,
                    message: "node "@ + decimal(node as nat) + " layer "@ + decimal(layer as nat)
                        + " references out-of-range neighbor "@ + decimal(neighbor as nat),
                }),
            )
            &&& neighbor < sidecar.nodes.len() && sidecar.nodes[neighbor as int].level < layer
                ==> graph_fault(sidecar) == Some(
                (ErrorModel {
                    kind: IndexErrorKind::InvalidData,
                    message: "node "@ + decimal(node as nat) + " layer "@ + decimal(layer as nat)
                        + " references neighbor "@ + decimal(neighbor as nat)
                        + " below that layer"@,
                }),
            )
        }),
{
    let nodes = sidecar.nodes;
    let lists = nodes[node].neighbors;
    let fault = link_fault(nodes, node, layer, lists[layer][k]);
    if fault is Some {
        lemma_nodes_pass(nodes, node);
        lemma_lists_fault_iff(nodes, node, layer as nat);
        assert forall|l: int| 0 <= l < layer implies list_fault(
            nodes,
            node,
            l,
            (#[trigger] nodes[node].neighbors[l]).len(),
        ) is None by {
            lemma_list_fault_iff(nodes, node, l, nodes[node].neighbors[l].len());
        }
        lemma_list_fault_iff(nodes, node, layer, k as nat);
        assert(list_fault(nodes, node, layer, (k + 1) as nat) == fault);
        lemma_list_fault_stays(nodes, node, layer, (k + 1) as nat, lists[layer].len());
        assert(lists_fault(nodes, node, (layer + 1) as nat) == fault);
        lemma_lists_fault_stays(nodes, node, (layer + 1) as nat, lists.len());
        assert(node_fault(nodes, node) == fault);
        assert(nodes_fault(nodes, (node + 1) as nat) == fault);
        lemma_nodes_fault_stays(nodes, (node + 1) as nat, nodes.len());
    }
}

} // verus!
