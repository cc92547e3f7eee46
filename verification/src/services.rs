//! The orchestrator's requests and the validation every mutation passes: the edit is
//! projected onto the canvas as it stands and checked before anything is written.

use crate::agent::{AccountRole, Identity};
use crate::analysis::{ensure_valid, findings_before_cycles, first_error, first_rejection};
use crate::checks::check_ip_hash;
use crate::cycles::{dep_graph, has_cycle};
use crate::model::{
    CanvasTopology, CanvasUiPosition, EdgeConnectionEntity, NewPort, NewPortView, NodeSpec, NodeView,
    PortView, TopologyView,
};
use crate::node_edits::{
    edits_view, new_ports_view, pending_node, pending_node_id, pending_port_id, port_layout,
    ports_view, spec_port_layout, OrchestrationError, RefusalView,
};
use crate::topology::{apply_edits, EditView, TopologyEdit};
use vstd::prelude::*;

verus! {

/// Creates a node on a canvas.
#[derive(Debug)]
pub struct CreateNode {
    pub actor: Identity,
    pub canvas: String,
    pub name: String,
    pub comment: String,
    pub spec: NodeSpec,
    pub position: CanvasUiPosition,
    pub item_count: u32,
}

/// Replaces a node's spec with one of the same kind.
#[derive(Debug)]
pub struct ReplaceNodeSpec {
    pub actor: Identity,
    pub node: String,
    pub spec: NodeSpec,
    pub item_count: u32,
}

/// Renames, comments or moves a node.
#[derive(Debug)]
pub struct UpdateNodeMeta {
    pub actor: Identity,
    pub node: String,
    pub name: String,
    pub comment: String,
    pub position: CanvasUiPosition,
}

/// Removes a node with its edges, if the canvas stays valid.
#[derive(Debug)]
pub struct RetireNode {
    pub actor: Identity,
    pub node: String,
}

/// Removes a node without validating what it leaves behind. Admin only.
#[derive(Debug)]
pub struct ForceDeleteNode {
    pub actor: Identity,
    pub node: String,
}

/// Connects an output port to an input port.
#[derive(Debug)]
pub struct Connect {
    pub actor: Identity,
    pub output_port: String,
    pub input_port: String,
}

/// Removes an edge, if the canvas stays valid.
#[derive(Debug)]
pub struct Disconnect {
    pub actor: Identity,
    pub edge: String,
}

/// Removes an edge without validating. Admin only.
#[derive(Debug)]
pub struct ForceDisconnect {
    pub actor: Identity,
    pub edge: String,
}

#[derive(Debug)]
pub struct CreateCanvas {
    pub actor: Identity,
    pub name: String,
    pub description: String,
}

#[derive(Debug)]
pub struct ListCanvases {
    pub actor: Identity,
}

#[derive(Debug)]
pub struct GetCanvas {
    pub actor: Identity,
    pub canvas: String,
}

#[derive(Debug)]
pub struct UpdateCanvas {
    pub actor: Identity,
    pub canvas: String,
    pub name: String,
    pub description: String,
}

#[derive(Debug)]
pub struct DeleteCanvas {
    pub actor: Identity,
    pub canvas: String,
}

/// Runs the topology checker over a canvas, reporting warnings with the errors.
#[derive(Debug)]
pub struct ValidateCanvas {
    pub actor: Identity,
    pub canvas: String,
}

#[derive(Debug)]
pub struct GetServerConfig {
    pub actor: Identity,
    pub server: String,
}

#[derive(Debug)]
pub struct GetServerRolloutStatus {
    pub actor: Identity,
    pub server: String,
}

/// Asks for the servers of a canvas to be derived again.
#[derive(Debug)]
pub struct DeriveCanvas {
    pub canvas: String,
}

/// A canvas changed.
#[derive(Debug)]
pub struct CanvasDirty {
    /// The canvas record key.
    pub canvas: String,
}

/// A tick of the garbage collector of retired rows.
#[derive(Debug)]
pub struct GcTick;

/// What one garbage collection removed.
#[derive(Debug, Clone, Copy, PartialEq, Eq, Structural)]
pub struct GcReport {
    pub nodes: i64,
    pub edges: i64,
}

impl GcReport {
    /// Whether the collection is worth reporting.
    pub fn collected_anything(&self) -> (r: bool)
        ensures
            r == (self.nodes != 0 || self.edges != 0),
    {
        self.nodes != 0 || self.edges != 0
    }
}

/// Whether a topology passes the checker.
pub open spec fn topology_valid(t: TopologyView) -> bool {
    first_error(findings_before_cycles(t)) is None && !has_cycle(dep_graph(t)) && check_ip_hash(t).len() == 0
}

/// Projects `edits` onto `t` and checks the result: the projected topology when it
/// is valid, the checker's rejection otherwise.
pub fn check_projection(t: &CanvasTopology, edits: &Vec<TopologyEdit>) -> (r: Result<CanvasTopology, OrchestrationError>)
    ensures
        match r {
            Ok(p) => p@ == apply_edits(t@, edits_view(edits@), 0) && topology_valid(p@),
            Err(e) => e matches OrchestrationError::Topology(b) && !topology_valid(
                apply_edits(t@, edits_view(edits@), 0),
            ) && first_rejection(apply_edits(t@, edits_view(edits@), 0), b.first@),
        },
{
    let projected = t.project(edits);
    match ensure_valid(&projected) {
        Ok(()) => Ok(projected),
        Err(e) => Err(OrchestrationError::Topology(e)),
    }
}

/// Operations that skip validation are for admins only.
pub fn require_admin(actor: &Identity) -> (r: Result<(), OrchestrationError>)
    ensures
        r is Ok <==> actor.role == AccountRole::Admin,
        r matches Err(e) ==> e@ == RefusalView::PermissionDenied,
{
    if actor.is_admin() {
        Ok(())
    } else {
        Err(OrchestrationError::PermissionDenied)
    }
}

/// The rows a node creation would write, with placeholder ids, for validation.
pub open spec fn pending_rows(ps: Seq<NewPortView>) -> Seq<PortView> {
    Seq::new(
        ps.len(),
        |i: int|
            PortView {
                id: pending_port_id(i),
                owner: pending_node_id(),
                kind: ps[i].kind,
                direction: ps[i].direction,
                key: ps[i].key,
                position: ps[i].position,
            },
    )
}

/// The ports a node creation writes, and the edit whose projection must validate
/// first (the node with placeholder ids).
pub fn creation_edits(input: &CreateNode) -> (r: Result<(Vec<NewPort>, Vec<TopologyEdit>), OrchestrationError>)
    ensures
        match spec_port_layout(input.spec@, input.item_count) {
            Ok(ps) => match r {
                Ok(x) => new_ports_view(x.0@) == ps && edits_view(x.1@) == seq![
                    EditView::AddNode {
                        node: NodeView {
                            id: pending_node_id(),
                            canvas: input.canvas@,
                            name: input.name@,
                            comment: input.comment@,
                            spec: input.spec@,
                            position: input.position,
                        },
                        ports: pending_rows(ps),
                    },
                ],
                Err(_) => false,
            },
            Err(m) => r matches Err(e) && e@ == RefusalView::Invalid(m),
        },
{
    let ports = match port_layout(&input.spec, input.item_count) {
        Ok(p) => p,
        Err(e) => return Err(e),
    };
    let (node, rows) = pending_node(&input.canvas, &input.name, &input.comment, &input.spec, input.position, &ports);
    let ghost ps = new_ports_view(ports@);
    let mut edits: Vec<TopologyEdit> = Vec::new();
    edits.push(TopologyEdit::AddNode { node: Box::new(node), ports: rows });
    proof {
        assert(ports_view(rows@) =~= pending_rows(ps));
        assert(edits_view(edits@) =~= seq![edits@[0]@]);
    }
    Ok((ports, edits))
}

/// The edit whose projection must validate before two ports are connected: the edge
/// with a placeholder id.
pub fn connect_edits(input: &Connect) -> (r: Vec<TopologyEdit>)
    ensures
        r@.len() == 1,
        r@[0]@ == (EditView::AddEdge {
            edge: crate::model::EdgeView {
                id: "pending-0"@,
                source: input.output_port@,
                target: input.input_port@,
            },
        }),
{
    let mut edits: Vec<TopologyEdit> = Vec::new();
    edits.push(
        TopologyEdit::AddEdge {
            edge: EdgeConnectionEntity {
                id: String::from_str("pending-0"),
                source: input.output_port.clone(),
                target: input.input_port.clone(),
            },
        },
    );
    edits
}

/// The edit whose projection must validate before an edge is removed.
pub fn disconnect_edits(input: &Disconnect) -> (r: Vec<TopologyEdit>)
    ensures
        r@.len() == 1,
        r@[0]@ == (EditView::RetireEdge { edge: input.edge@ }),
{
    let mut edits: Vec<TopologyEdit> = Vec::new();
    edits.push(TopologyEdit::RetireEdge { edge: input.edge.clone() });
    edits
}

/// The edit whose projection must validate before a node is removed.
pub fn retire_edits(input: &RetireNode) -> (r: Vec<TopologyEdit>)
    ensures
        r@.len() == 1,
        r@[0]@ == (EditView::RetireNode { node: input.node@ }),
{
    let mut edits: Vec<TopologyEdit> = Vec::new();
    edits.push(TopologyEdit::RetireNode { node: input.node.clone() });
    edits
}

} // verus!
