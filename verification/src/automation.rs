//! Workflow definitions: nodes, the connections between them, and the lookups the
//! engine makes over them.
//!
//! Node positions are the bits of their `f64` coordinates, free-form JSON (node
//! parameters) is kept as its text, and times are milliseconds since the Unix epoch.

use vstd::prelude::*;
use crate::strmap::StrMap;
use crate::sys::{new_uuid, now_millis};
use crate::text::{concat, owned, str_eq};

verus! {

/// Types of nodes in a workflow.
#[derive(Clone, Copy, Debug, PartialEq, Eq, Structural)]
pub enum NodeType {
    Trigger,
    Action,
    Condition,
    Notification,
}

/// What starts a workflow.
#[derive(Clone, Debug)]
pub enum TriggerType {
    Manual,
    /// A cron expression.
    Scheduled(String),
    /// A webhook endpoint path.
    Webhook(String),
}

#[derive(Clone, Copy, Debug, PartialEq, Eq, Structural)]
pub enum TransferDirection {
    Upload,
    Download,
}

#[derive(Clone, Copy, Debug, PartialEq, Eq, Structural)]
pub enum NotificationChannel {
    InApp,
    System,
    Both,
}

/// What an action node does.
#[derive(Clone, Debug)]
pub enum ActionType {
    SshCommand { host: String, port: u16, username: String, password: Option<String>, command: String },
    FileTransfer { source: String, destination: String, host: String, direction: TransferDirection },
    Notification { title: String, message: String, channel: NotificationChannel },
}

/// How a failing node affects the rest of the run.
#[derive(Clone, Copy, Debug, PartialEq, Eq, Structural)]
pub enum ErrorBehavior {
    /// Stop the whole workflow.
    StopWorkflow,
    /// Continue with an empty output.
    ContinueRegularOutput,
    /// Continue along the error branch.
    ContinueErrorOutput,
}

/// A credential of the vault, by id and name.
#[derive(Clone, Debug)]
pub struct CredentialReference {
    pub id: Option<String>,
    pub name: String,
}

/// Workflow-level settings.
#[derive(Clone, Debug)]
pub struct WorkflowSettings {
    pub timezone: Option<String>,
    /// Seconds.
    pub execution_timeout: Option<u64>,
    pub save_execution_progress: bool,
    pub save_manual_executions: bool,
    pub save_data_error_execution: Option<String>,
    pub save_data_success_execution: Option<String>,
    /// Workflow to run on error.
    pub error_workflow: Option<String>,
    pub caller_policy: Option<String>,
    /// `"v0"` or `"v1"`.
    pub execution_order: Option<String>,
}

impl WorkflowSettings {
    pub open spec fn is_default(&self) -> bool {
        &&& self.timezone matches Some(t) && t@ == "UTC"@
        &&& self.execution_timeout == Some(300u64)
        &&& self.save_execution_progress
        &&& self.save_manual_executions
        &&& self.save_data_error_execution matches Some(e) && e@ == "all"@
        &&& self.save_data_success_execution matches Some(s) && s@ == "all"@
        &&& self.error_workflow is None
        &&& self.caller_policy is None
        &&& self.execution_order matches Some(o) && o@ == "v1"@
    }
}

impl Default for WorkflowSettings {
    fn default() -> (r: Self)
        ensures
            r.is_default(),
    {
        WorkflowSettings {
            timezone: Some(owned("UTC")),
            execution_timeout: Some(300),
            save_execution_progress: true,
            save_manual_executions: true,
            save_data_error_execution: Some(owned("all")),
            save_data_success_execution: Some(owned("all")),
            error_workflow: None,
            caller_policy: None,
            execution_order: Some(owned("v1")),
        }
    }
}

/// The kind of a connection.
#[derive(Clone, Debug)]
pub enum ConnectionType {
    /// Regular data flow.
    Main,
    /// Error handling branch.
    Error,
    /// AI data.
    Ai,
    Custom(String),
}

/// Two connection types are the same: the same variant, and for `Custom` the same text.
pub open spec fn same_connection_type(a: ConnectionType, b: ConnectionType) -> bool {
    match (a, b) {
        (ConnectionType::Main, ConnectionType::Main) => true,
        (ConnectionType::Error, ConnectionType::Error) => true,
        (ConnectionType::Ai, ConnectionType::Ai) => true,
        (ConnectionType::Custom(x), ConnectionType::Custom(y)) => x@ == y@,
        _ => false,
    }
}

impl ConnectionType {
    /// The type of a connection stored without one.
    pub fn default_type() -> (r: Self)
        ensures
            r is Main,
    {
        ConnectionType::Main
    }

    pub fn copy(&self) -> (r: Self)
        ensures
            same_connection_type(r, *self),
    {
        match self {
            ConnectionType::Main => ConnectionType::Main,
            ConnectionType::Error => ConnectionType::Error,
            ConnectionType::Ai => ConnectionType::Ai,
            ConnectionType::Custom(s) => ConnectionType::Custom(s.clone()),
        }
    }

    pub fn same_as(&self, other: &ConnectionType) -> (r: bool)
        ensures
            r == same_connection_type(*self, *other),
    {
        match (self, other) {
            (ConnectionType::Main, ConnectionType::Main) => true,
            (ConnectionType::Error, ConnectionType::Error) => true,
            (ConnectionType::Ai, ConnectionType::Ai) => true,
            (ConnectionType::Custom(x), ConnectionType::Custom(y)) => str_eq(x.as_str(), y.as_str()),
            _ => false,
        }
    }
}

/// The type version of a node stored without one.
pub fn default_type_version() -> (r: u32)
    ensures
        r == 1,
{
    1
}

/// Where a node is drawn: the bits of its `f64` coordinates.
#[derive(Clone, Copy, Debug, PartialEq, Eq, Structural)]
pub struct Position {
    pub x_bits: u64,
    pub y_bits: u64,
}

/// Configuration specific to each node type.
#[derive(Clone, Debug)]
pub enum NodeConfig {
    Trigger { trigger_type: TriggerType },
    Action { action_type: ActionType },
    /// The branches are node ids.
    Condition { expression: String, true_branch: String, false_branch: String },
    Notification { title: String, message: String, channel: NotificationChannel },
}

/// A node in a workflow.
#[derive(Clone, Debug)]
pub struct Node {
    pub id: String,
    pub node_type: NodeType,
    pub name: String,
    pub type_version: u32,
    pub position: Position,
    pub config: NodeConfig,
    pub disabled: Option<bool>,
    pub notes: Option<String>,
    pub notes_in_flow: Option<bool>,
    pub on_error: Option<ErrorBehavior>,
    pub continue_on_fail: Option<bool>,
    pub retry_on_fail: Option<bool>,
    pub max_tries: Option<u32>,
    pub wait_between_tries: Option<u32>,
    /// Credentials by slot name.
    pub credentials: Option<Vec<(String, CredentialReference)>>,
    /// Free-form parameters, as JSON text.
    pub parameters: Option<String>,
    pub always_output_data: Option<bool>,
}

/// A connection from an output of one node to an input of another.
#[derive(Clone, Debug)]
pub struct Connection {
    pub id: String,
    pub source_node: String,
    pub source_port: String,
    pub source_index: usize,
    pub target_node: String,
    pub target_port: String,
    pub target_index: usize,
    pub connection_type: ConnectionType,
}

/// The fields of two connections agree (their texts by view).
pub open spec fn same_connection(a: Connection, b: Connection) -> bool {
    &&& a.id@ == b.id@
    &&& a.source_node@ == b.source_node@
    &&& a.source_port@ == b.source_port@
    &&& a.source_index == b.source_index
    &&& a.target_node@ == b.target_node@
    &&& a.target_port@ == b.target_port@
    &&& a.target_index == b.target_index
    &&& same_connection_type(a.connection_type, b.connection_type)
}

impl Connection {
    pub fn copy(&self) -> (r: Self)
        ensures
            same_connection(r, *self),
    {
        Connection {
            id: self.id.clone(),
            source_node: self.source_node.clone(),
            source_port: self.source_port.clone(),
            source_index: self.source_index,
            target_node: self.target_node.clone(),
            target_port: self.target_port.clone(),
            target_index: self.target_index,
            connection_type: self.connection_type.copy(),
        }
    }
}

/// Connection `c` leaves `node` (or, `by_target`, arrives at it), and has type `ty` if
/// one is given.
pub open spec fn conn_matches(c: Connection, node: Seq<char>, by_target: bool, ty: Option<ConnectionType>) -> bool {
    &&& (if by_target { c.target_node@ } else { c.source_node@ }) == node
    &&& match ty {
        Some(t) => same_connection_type(c.connection_type, t),
        None => true,
    }
}

/// The connections of `conns` that match, in order.
pub open spec fn picked(conns: Seq<Connection>, node: Seq<char>, by_target: bool, ty: Option<ConnectionType>) -> Seq<Connection>
    decreases conns.len(),
{
    if conns.len() == 0 {
        seq![]
    } else {
        let rest = picked(conns.drop_last(), node, by_target, ty);
        if conn_matches(conns.last(), node, by_target, ty) {
            rest.push(conns.last())
        } else {
            rest
        }
    }
}

/// `out` holds the connections of `expected`, in order, field for field.
pub open spec fn same_connections(out: Seq<Connection>, expected: Seq<Connection>) -> bool {
    &&& out.len() == expected.len()
    &&& forall|i: int| 0 <= i < out.len() ==> same_connection(#[trigger] out[i], expected[i])
}

/// The connections of `conns` that match, in order.
fn select_connections(conns: &Vec<Connection>, node_id: &str, by_target: bool, conn_type: Option<&ConnectionType>) -> (r: Vec<Connection>)
    ensures
        forall|ty: Option<ConnectionType>| (match conn_type {
            Some(x) => ty matches Some(y) && same_connection_type(y, *x),
            None => ty is None,
        }) ==> same_connections(r@, #[trigger] picked(conns@, node_id@, by_target, ty)),
{
    let mut out: Vec<Connection> = Vec::new();
    let mut i: usize = 0;
    while i < conns.len()
        invariant
            i <= conns@.len(),
            forall|ty: Option<ConnectionType>| (match conn_type {
                Some(x) => ty matches Some(y) && same_connection_type(y, *x),
                None => ty is None,
            }) ==> same_connections(out@, #[trigger] picked(conns@.subrange(0, i as int), node_id@, by_target, ty)),
        decreases conns@.len() - i,
    {
        let c = &conns[i];
        let end = if by_target { c.target_node.as_str() } else { c.source_node.as_str() };
        let mut hit = str_eq(end, node_id);
        if hit {
            match conn_type {
                Some(t) => {
                    hit = c.connection_type.same_as(t);
                },
                None => {},
            }
        }
        let ghost before = out@;
        if hit {
            out.push(c.copy());
        }
        proof {
            let t = conns@.subrange(0, i + 1);
            assert(t.drop_last() =~= conns@.subrange(0, i as int));
            assert(t.last() == conns@[i as int]);
            assert forall|ty: Option<ConnectionType>| (match conn_type {
                Some(x) => ty matches Some(y) && same_connection_type(y, *x),
                None => ty is None,
            }) implies same_connections(out@, #[trigger] picked(t, node_id@, by_target, ty)) by {
                assert(same_connections(before, picked(t.drop_last(), node_id@, by_target, ty)));
                assert(conn_matches(conns@[i as int], node_id@, by_target, ty) == hit);
                assert forall|k: int| 0 <= k < out@.len() implies same_connection(#[trigger] out@[k], picked(t, node_id@, by_target, ty)[k]) by {
                    if k < before.len() {
                        assert(out@[k] == before[k]);
                    }
                }
            }
        }
        i = i + 1;
    }
    assert(conns@.subrange(0, conns@.len() as int) =~= conns@);
    out
}

/// Connections indexed by source, by target, and by source and type.
pub struct ConnectionIndex {
    connections: Vec<Connection>,
}

impl ConnectionIndex {
    pub closed spec fn connections(&self) -> Seq<Connection> {
        self.connections@
    }

    pub fn new(connections: &[Connection]) -> (r: Self)
        ensures
            r.connections().len() == connections@.len(),
            forall|i: int| 0 <= i < connections@.len() ==> same_connection(#[trigger] r.connections()[i], connections@[i]),
    {
        let mut all: Vec<Connection> = Vec::new();
        let mut i: usize = 0;
        while i < connections.len()
            invariant
                i <= connections@.len(),
                all@.len() == i,
                forall|k: int| 0 <= k < i ==> same_connection(#[trigger] all@[k], connections@[k]),
            decreases connections@.len() - i,
        {
            all.push(connections[i].copy());
            i = i + 1;
        }
        ConnectionIndex { connections: all }
    }

    /// The connections leaving `node_id`, in the order given.
    pub fn get_outgoing(&self, node_id: &str) -> (r: Vec<Connection>)
        ensures
            same_connections(r@, picked(self.connections(), node_id@, false, None)),
    {
        let r = select_connections(&self.connections, node_id, false, None);
        r
    }

    /// The connections arriving at `node_id`, in the order given.
    pub fn get_incoming(&self, node_id: &str) -> (r: Vec<Connection>)
        ensures
            same_connections(r@, picked(self.connections(), node_id@, true, None)),
    {
        let r = select_connections(&self.connections, node_id, true, None);
        r
    }

    /// The connections of type `conn_type` leaving `node_id`, in the order given.
    pub fn get_by_type(&self, node_id: &str, conn_type: &ConnectionType) -> (r: Vec<Connection>)
        ensures
            forall|ty: ConnectionType| same_connection_type(ty, *conn_type) ==> same_connections(r@, #[trigger] picked(self.connections(), node_id@, false, Some(ty))),
    {
        let r = select_connections(&self.connections, node_id, false, Some(conn_type));
        r
    }
}

/// The result of executing a node.
#[derive(Clone, Debug)]
pub enum NodeResult {
    Success { output: Option<String> },
    Failure { error: String },
    Skipped,
}

/// Why a workflow can't run.
#[derive(Clone, Debug)]
pub enum WorkflowError {
    NoTriggerNode,
    CircularDependency,
    NodeNotFound(String),
    ExecutionFailed(String),
    InvalidConfiguration(String),
}

/// The message of a workflow error.
pub open spec fn workflow_error_text(e: WorkflowError) -> Seq<char> {
    match e {
        WorkflowError::NoTriggerNode => "No trigger node found in workflow"@,
        WorkflowError::CircularDependency => "Circular dependency detected in workflow"@,
        WorkflowError::NodeNotFound(id) => "Node not found: "@ + id@,
        WorkflowError::ExecutionFailed(m) => "Execution failed: "@ + m@,
        WorkflowError::InvalidConfiguration(m) => "Invalid workflow configuration: "@ + m@,
    }
}

impl WorkflowError {
    /// The error's message.
    pub fn to_string(&self) -> (r: String)
        ensures
            r@ == workflow_error_text(*self),
    {
        match self {
            WorkflowError::NoTriggerNode => owned("No trigger node found in workflow"),
            WorkflowError::CircularDependency => owned("Circular dependency detected in workflow"),
            WorkflowError::NodeNotFound(id) => concat("Node not found: ", id.as_str()),
            WorkflowError::ExecutionFailed(m) => concat("Execution failed: ", m.as_str()),
            WorkflowError::InvalidConfiguration(m) => concat("Invalid workflow configuration: ", m.as_str()),
        }
    }
}

/// The status of a workflow run.
#[derive(Clone, Copy, Debug, PartialEq, Eq, Structural)]
pub enum ExecutionStatus {
    Pending,
    Running,
    Completed,
    Failed,
    Cancelled,
}

/// A workflow definition.
pub struct Workflow {
    pub id: String,
    pub name: String,
    pub description: Option<String>,
    pub nodes: Vec<Node>,
    pub connections: Vec<Connection>,
    pub enabled: bool,
    /// Milliseconds since the Unix epoch.
    pub created_at: i64,
    /// Milliseconds since the Unix epoch.
    pub updated_at: i64,
    pub settings: WorkflowSettings,
    /// Values kept between runs, as JSON text, by key.
    pub static_data: StrMap<String>,
    /// Output pinned per node id, each value as JSON text.
    pub pin_data: Option<StrMap<Vec<String>>>,
    pub tags: Vec<String>,
    pub category: Option<String>,
    pub author: Option<String>,
    pub version: Option<String>,
}

/// Index of the first node in `nodes` whose id is `id`.
pub open spec fn first_node_with_id(nodes: Seq<Node>, id: Seq<char>, i: int) -> bool {
    &&& 0 <= i < nodes.len()
    &&& nodes[i].id@ == id
    &&& forall|j: int| 0 <= j < i ==> (#[trigger] nodes[j]).id@ != id
}

/// Index of the first trigger node in `nodes`.
pub open spec fn first_trigger(nodes: Seq<Node>, i: int) -> bool {
    &&& 0 <= i < nodes.len()
    &&& nodes[i].node_type == NodeType::Trigger
    &&& forall|j: int| 0 <= j < i ==> (#[trigger] nodes[j]).node_type != NodeType::Trigger
}

impl Workflow {
    /// A new, disabled, empty workflow with a fresh id and default settings.
    pub fn new(name: String) -> (r: Self)
        ensures
            r.name@ == name@,
            r.description is None,
            r.nodes@.len() == 0,
            r.connections@.len() == 0,
            !r.enabled,
            r.created_at == r.updated_at,
            r.settings.is_default(),
            r.static_data.wf(),
            r.static_data@ == Map::<Seq<char>, String>::empty(),
            r.pin_data is None,
            r.tags@.len() == 0,
            r.category is None,
            r.author is None,
            r.version is None,
    {
        let now = now_millis();
        Workflow {
            id: new_uuid(),
            name,
            description: None,
            nodes: Vec::new(),
            connections: Vec::new(),
            enabled: false,
            created_at: now,
            updated_at: now,
            settings: WorkflowSettings::default(),
            static_data: StrMap::new(),
            pin_data: None,
            tags: Vec::new(),
            category: None,
            author: None,
            version: None,
        }
    }

    /// The trigger node (entry point): the first node of type `Trigger`.
    pub fn find_trigger_node(&self) -> (r: Option<&Node>)
        ensures
            match r {
                Some(n) => exists|i: int| first_trigger(self.nodes@, i) && self.nodes@[i] == *n,
                None => forall|i: int| 0 <= i < self.nodes@.len() ==> (#[trigger] self.nodes@[i]).node_type != NodeType::Trigger,
            },
    {
        let mut i: usize = 0;
        while i < self.nodes.len()
            invariant
                i <= self.nodes@.len(),
                forall|j: int| 0 <= j < i ==> (#[trigger] self.nodes@[j]).node_type != NodeType::Trigger,
            decreases self.nodes@.len() - i,
        {
            if self.nodes[i].node_type == NodeType::Trigger {
                assert(first_trigger(self.nodes@, i as int));
                return Some(&self.nodes[i]);
            }
            i = i + 1;
        }
        None
    }

    /// The first node with this id.
    pub fn get_node(&self, node_id: &str) -> (r: Option<&Node>)
        ensures
            match r {
                Some(n) => exists|i: int| first_node_with_id(self.nodes@, node_id@, i) && self.nodes@[i] == *n,
                None => forall|i: int| 0 <= i < self.nodes@.len() ==> (#[trigger] self.nodes@[i]).id@ != node_id@,
            },
    {
        let mut i: usize = 0;
        while i < self.nodes.len()
            invariant
                i <= self.nodes@.len(),
                forall|j: int| 0 <= j < i ==> (#[trigger] self.nodes@[j]).id@ != node_id@,
            decreases self.nodes@.len() - i,
        {
            if str_eq(self.nodes[i].id.as_str(), node_id) {
                assert(first_node_with_id(self.nodes@, node_id@, i as int));
                return Some(&self.nodes[i]);
            }
            i = i + 1;
        }
        None
    }

    /// An index of this workflow's connections.
    pub fn build_connection_index(&self) -> (r: ConnectionIndex)
        ensures
            same_connections(r.connections(), self.connections@),
    {
        ConnectionIndex::new(self.connections.as_slice())
    }

    /// The connections leaving `node_id`, in order.
    pub fn get_outgoing_connections(&self, node_id: &str) -> (r: Vec<Connection>)
        ensures
            same_connections(r@, picked(self.connections@, node_id@, false, None)),
    {
        select_connections(&self.connections, node_id, false, None)
    }

    /// The connections arriving at `node_id`, in order.
    pub fn get_incoming_connections(&self, node_id: &str) -> (r: Vec<Connection>)
        ensures
            same_connections(r@, picked(self.connections@, node_id@, true, None)),
    {
        select_connections(&self.connections, node_id, true, None)
    }

    /// The connections of type `conn_type` leaving `node_id`, in order.
    pub fn get_outgoing_by_type(&self, node_id: &str, conn_type: &ConnectionType) -> (r: Vec<Connection>)
        ensures
            forall|ty: ConnectionType| same_connection_type(ty, *conn_type) ==> same_connections(r@, #[trigger] picked(self.connections@, node_id@, false, Some(ty))),
    {
        select_connections(&self.connections, node_id, false, Some(conn_type))
    }

    /// The error connections leaving `node_id`, in order.
    pub fn get_error_connections(&self, node_id: &str) -> (r: Vec<Connection>)
        ensures
            same_connections(r@, picked(self.connections@, node_id@, false, Some(ConnectionType::Error))),
    {
        let t = ConnectionType::Error;
        self.get_outgoing_by_type(node_id, &t)
    }

    pub fn get_static_data(&self, key: &str) -> (r: Option<&String>)
        requires
            self.static_data.wf(),
        ensures
            r matches Some(v) ==> self.static_data@.contains_key(key@) && self.static_data@[key@] == *v,
            r is None ==> !self.static_data@.contains_key(key@),
    {
        self.static_data.get(key)
    }

    pub fn set_static_data(&mut self, key: &str, value: String)
        requires
            old(self).static_data.wf(),
        ensures
            final(self).static_data.wf(),
            final(self).static_data@ == old(self).static_data@.insert(key@, value),
    {
        self.static_data.insert(key, value);
    }

    pub fn clear_static_data(&mut self)
        ensures
            final(self).static_data.wf(),
            final(self).static_data@ == Map::<Seq<char>, String>::empty(),
    {
        self.static_data.clear();
    }

    /// Pins `data` as the output of `node_id`.
    pub fn pin_node_data(&mut self, node_id: &str, data: Vec<String>)
        requires
            old(self).pin_data matches Some(p) ==> p.wf(),
        ensures
            final(self).pin_data matches Some(p) && p.wf() && p@ == (match old(self).pin_data {
                Some(q) => q@,
                None => Map::<Seq<char>, Vec<String>>::empty(),
            }).insert(node_id@, data),
    {
        let mut pins = match self.pin_data.take() {
            Some(p) => p,
            None => StrMap::new(),
        };
        pins.insert(node_id, data);
        self.pin_data = Some(pins);
    }

    pub fn get_pinned_data(&self, node_id: &str) -> (r: Option<&Vec<String>>)
        requires
            self.pin_data matches Some(p) ==> p.wf(),
        ensures
            match self.pin_data {
                Some(p) => (r matches Some(v) ==> p@.contains_key(node_id@) && p@[node_id@] == *v) && (r is None
                    ==> !p@.contains_key(node_id@)),
                None => r is None,
            },
    {
        match &self.pin_data {
            Some(p) => p.get(node_id),
            None => None,
        }
    }

    pub fn unpin_node_data(&mut self, node_id: &str)
        requires
            old(self).pin_data matches Some(p) ==> p.wf(),
        ensures
            match old(self).pin_data {
                Some(q) => final(self).pin_data matches Some(p) && p.wf() && p@ == q@.remove(node_id@),
                None => final(self).pin_data is None,
            },
    {
        match self.pin_data.take() {
            Some(mut p) => {
                p.remove(node_id);
                self.pin_data = Some(p);
            },
            None => {},
        }
    }

    pub fn clear_pin_data(&mut self)
        ensures
            final(self).pin_data is None,
    {
        self.pin_data = None;
    }

    /// Adds a tag unless it is already there.
    pub fn add_tag(&mut self, tag: String)
        ensures
            (exists|i: int| 0 <= i < old(self).tags@.len() && (#[trigger] old(self).tags@[i])@ == tag@)
                ==> final(self).tags@ == old(self).tags@,
            (forall|i: int| 0 <= i < old(self).tags@.len() ==> (#[trigger] old(self).tags@[i])@ != tag@)
                ==> final(self).tags@ == old(self).tags@.push(tag),
    {
        if !self.has_tag(tag.as_str()) {
            self.tags.push(tag);
        }
    }

    /// Removes every copy of a tag.
    pub fn remove_tag(&mut self, tag: &str)
        ensures
            final(self).tags@ == old(self).tags@.filter(|t: String| t@ != tag@),
    {
        let ghost pred = |t: String| t@ != tag@;
        let mut old_tags: Vec<String> = Vec::new();
        std::mem::swap(&mut old_tags, &mut self.tags);
        let mut kept: Vec<String> = Vec::new();
        let mut i: usize = 0;
        while i < old_tags.len()
            invariant
                i <= old_tags@.len(),
                old_tags@ == old(self).tags@,
                kept@ == old_tags@.subrange(0, i as int).filter(pred),
                forall|t: String| #[trigger] pred(t) == (t@ != tag@),
            decreases old_tags@.len() - i,
        {
            let keep = !str_eq(old_tags[i].as_str(), tag);
            if keep {
                kept.push(old_tags[i].clone());
            }
            proof {
                reveal_with_fuel(Seq::<_>::filter, 1);
                let t = old_tags@.subrange(0, i + 1);
                assert(t.drop_last() =~= old_tags@.subrange(0, i as int));
                assert(t.last() == old_tags@[i as int]);
                assert(pred(old_tags@[i as int]) == keep);
            }
            i = i + 1;
        }
        assert(old_tags@.subrange(0, old_tags@.len() as int) =~= old_tags@);
        self.tags = kept;
    }

    pub fn has_tag(&self, tag: &str) -> (r: bool)
        ensures
            r == exists|i: int| 0 <= i < self.tags@.len() && (#[trigger] self.tags@[i])@ == tag@,
    {
        let mut i: usize = 0;
        while i < self.tags.len()
            invariant
                i <= self.tags@.len(),
                forall|j: int| 0 <= j < i ==> (#[trigger] self.tags@[j])@ != tag@,
            decreases self.tags@.len() - i,
        {
            if str_eq(self.tags[i].as_str(), tag) {
                return true;
            }
            i = i + 1;
        }
        false
    }
}

} // verus!
