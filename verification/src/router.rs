//! The tool registry and router: the name-indexed table of tool
//! descriptors, the routing of `tools/list` and `tools/call` requests, and
//! the coercion of tool results into protocol content.
//!
//! Invoking a tool's handler is the caller's asynchronous work; the router
//! decides which tool a request names and what response each outcome turns
//! into.

use vstd::prelude::*;

use crate::context::Context;
use crate::decode::{obj_get, spec_obj_get};
use crate::json::{view_json_fields, view_json_seq, JsonValue, SpecJson};
use crate::protocol::{
    clone_bytes, clone_json, ErrorData, JsonRpcRequest, JsonRpcResponse, SpecErrorData,
    SpecRequest, SpecResponse, INTERNAL_ERROR, INVALID_PARAMS, METHOD_NOT_FOUND,
};

verus! {

broadcast use vstd::seq::group_seq_axioms, vstd::std_specs::vec::group_vec_axioms;

// ---------------------------------------------------------------------------
// Method names, member names, fixed texts
// ---------------------------------------------------------------------------

/// "tools/list"
pub open spec fn method_tools_list() -> Seq<u8> {
    seq![0x74u8, 0x6fu8, 0x6fu8, 0x6cu8, 0x73u8, 0x2fu8, 0x6cu8, 0x69u8, 0x73u8, 0x74u8]
}

pub fn bytes_tools_list() -> (r: Vec<u8>)
    ensures
        r@ == method_tools_list(),
{
    let mut v: Vec<u8> = Vec::new();
    v.push(0x74);
    v.push(0x6f);
    v.push(0x6f);
    v.push(0x6c);
    v.push(0x73);
    v.push(0x2f);
    v.push(0x6c);
    v.push(0x69);
    v.push(0x73);
    v.push(0x74);
    proof {
        assert(v@ =~= method_tools_list());
    }
    v
}

/// "tools/call"
pub open spec fn method_tools_call() -> Seq<u8> {
    seq![0x74u8, 0x6fu8, 0x6fu8, 0x6cu8, 0x73u8, 0x2fu8, 0x63u8, 0x61u8, 0x6cu8, 0x6cu8]
}

pub fn bytes_tools_call() -> (r: Vec<u8>)
    ensures
        r@ == method_tools_call(),
{
    let mut v: Vec<u8> = Vec::new();
    v.push(0x74);
    v.push(0x6f);
    v.push(0x6f);
    v.push(0x6c);
    v.push(0x73);
    v.push(0x2f);
    v.push(0x63);
    v.push(0x61);
    v.push(0x6c);
    v.push(0x6c);
    proof {
        assert(v@ =~= method_tools_call());
    }
    v
}

/// "tools"
pub open spec fn key_tools() -> Seq<u8> {
    seq![0x74u8, 0x6fu8, 0x6fu8, 0x6cu8, 0x73u8]
}

pub fn bytes_tools() -> (r: Vec<u8>)
    ensures
        r@ == key_tools(),
{
    let mut v: Vec<u8> = Vec::new();
    v.push(0x74);
    v.push(0x6f);
    v.push(0x6f);
    v.push(0x6c);
    v.push(0x73);
    proof {
        assert(v@ =~= key_tools());
    }
    v
}

/// "name"
pub open spec fn key_name() -> Seq<u8> {
    seq![0x6eu8, 0x61u8, 0x6du8, 0x65u8]
}

pub fn bytes_name() -> (r: Vec<u8>)
    ensures
        r@ == key_name(),
{
    let mut v: Vec<u8> = Vec::new();
    v.push(0x6e);
    v.push(0x61);
    v.push(0x6d);
    v.push(0x65);
    proof {
        assert(v@ =~= key_name());
    }
    v
}

/// "description"
pub open spec fn key_description() -> Seq<u8> {
    seq![0x64u8, 0x65u8, 0x73u8, 0x63u8, 0x72u8, 0x69u8, 0x70u8, 0x74u8, 0x69u8, 0x6fu8, 0x6eu8]
}

pub fn bytes_description() -> (r: Vec<u8>)
    ensures
        r@ == key_description(),
{
    let mut v: Vec<u8> = Vec::new();
    v.push(0x64);
    v.push(0x65);
    v.push(0x73);
    v.push(0x63);
    v.push(0x72);
    v.push(0x69);
    v.push(0x70);
    v.push(0x74);
    v.push(0x69);
    v.push(0x6f);
    v.push(0x6e);
    proof {
        assert(v@ =~= key_description());
    }
    v
}

/// "inputSchema"
pub open spec fn key_input_schema() -> Seq<u8> {
    seq![0x69u8, 0x6eu8, 0x70u8, 0x75u8, 0x74u8, 0x53u8, 0x63u8, 0x68u8, 0x65u8, 0x6du8, 0x61u8]
}

pub fn bytes_input_schema() -> (r: Vec<u8>)
    ensures
        r@ == key_input_schema(),
{
    let mut v: Vec<u8> = Vec::new();
    v.push(0x69);
    v.push(0x6e);
    v.push(0x70);
    v.push(0x75);
    v.push(0x74);
    v.push(0x53);
    v.push(0x63);
    v.push(0x68);
    v.push(0x65);
    v.push(0x6d);
    v.push(0x61);
    proof {
        assert(v@ =~= key_input_schema());
    }
    v
}

/// "arguments"
pub open spec fn key_arguments() -> Seq<u8> {
    seq![0x61u8, 0x72u8, 0x67u8, 0x75u8, 0x6du8, 0x65u8, 0x6eu8, 0x74u8, 0x73u8]
}

pub fn bytes_arguments() -> (r: Vec<u8>)
    ensures
        r@ == key_arguments(),
{
    let mut v: Vec<u8> = Vec::new();
    v.push(0x61);
    v.push(0x72);
    v.push(0x67);
    v.push(0x75);
    v.push(0x6d);
    v.push(0x65);
    v.push(0x6e);
    v.push(0x74);
    v.push(0x73);
    proof {
        assert(v@ =~= key_arguments());
    }
    v
}

/// "type"
pub open spec fn key_type() -> Seq<u8> {
    seq![0x74u8, 0x79u8, 0x70u8, 0x65u8]
}

pub fn bytes_type() -> (r: Vec<u8>)
    ensures
        r@ == key_type(),
{
    let mut v: Vec<u8> = Vec::new();
    v.push(0x74);
    v.push(0x79);
    v.push(0x70);
    v.push(0x65);
    proof {
        assert(v@ =~= key_type());
    }
    v
}

/// "text"
pub open spec fn key_text() -> Seq<u8> {
    seq![0x74u8, 0x65u8, 0x78u8, 0x74u8]
}

pub fn bytes_text() -> (r: Vec<u8>)
    ensures
        r@ == key_text(),
{
    let mut v: Vec<u8> = Vec::new();
    v.push(0x74);
    v.push(0x65);
    v.push(0x78);
    v.push(0x74);
    proof {
        assert(v@ =~= key_text());
    }
    v
}

/// "true"
pub open spec fn true_text() -> Seq<u8> {
    seq![0x74u8, 0x72u8, 0x75u8, 0x65u8]
}

pub fn bytes_true_text() -> (r: Vec<u8>)
    ensures
        r@ == true_text(),
{
    let mut v: Vec<u8> = Vec::new();
    v.push(0x74);
    v.push(0x72);
    v.push(0x75);
    v.push(0x65);
    proof {
        assert(v@ =~= true_text());
    }
    v
}

/// "false"
pub open spec fn false_text() -> Seq<u8> {
    seq![0x66u8, 0x61u8, 0x6cu8, 0x73u8, 0x65u8]
}

pub fn bytes_false_text() -> (r: Vec<u8>)
    ensures
        r@ == false_text(),
{
    let mut v: Vec<u8> = Vec::new();
    v.push(0x66);
    v.push(0x61);
    v.push(0x6c);
    v.push(0x73);
    v.push(0x65);
    proof {
        assert(v@ =~= false_text());
    }
    v
}

/// "unknown tool"
pub open spec fn msg_unknown_tool() -> Seq<u8> {
    seq![0x75u8, 0x6eu8, 0x6bu8, 0x6eu8, 0x6fu8, 0x77u8, 0x6eu8, 0x20u8, 0x74u8, 0x6fu8, 0x6fu8, 0x6cu8]
}

pub fn bytes_msg_unknown_tool() -> (r: Vec<u8>)
    ensures
        r@ == msg_unknown_tool(),
{
    let mut v: Vec<u8> = Vec::new();
    v.push(0x75);
    v.push(0x6e);
    v.push(0x6b);
    v.push(0x6e);
    v.push(0x6f);
    v.push(0x77);
    v.push(0x6e);
    v.push(0x20);
    v.push(0x74);
    v.push(0x6f);
    v.push(0x6f);
    v.push(0x6c);
    proof {
        assert(v@ =~= msg_unknown_tool());
    }
    v
}

/// "unknown method"
pub open spec fn msg_unknown_method() -> Seq<u8> {
    seq![0x75u8, 0x6eu8, 0x6bu8, 0x6eu8, 0x6fu8, 0x77u8, 0x6eu8, 0x20u8, 0x6du8, 0x65u8, 0x74u8, 0x68u8, 0x6fu8, 0x64u8]
}

pub fn bytes_msg_unknown_method() -> (r: Vec<u8>)
    ensures
        r@ == msg_unknown_method(),
{
    let mut v: Vec<u8> = Vec::new();
    v.push(0x75);
    v.push(0x6e);
    v.push(0x6b);
    v.push(0x6e);
    v.push(0x6f);
    v.push(0x77);
    v.push(0x6e);
    v.push(0x20);
    v.push(0x6d);
    v.push(0x65);
    v.push(0x74);
    v.push(0x68);
    v.push(0x6f);
    v.push(0x64);
    proof {
        assert(v@ =~= msg_unknown_method());
    }
    v
}

/// "invalid tool call parameters"
pub open spec fn msg_invalid_params() -> Seq<u8> {
    seq![0x69u8, 0x6eu8, 0x76u8, 0x61u8, 0x6cu8, 0x69u8, 0x64u8, 0x20u8, 0x74u8, 0x6fu8, 0x6fu8, 0x6cu8, 0x20u8, 0x63u8, 0x61u8, 0x6cu8, 0x6cu8, 0x20u8, 0x70u8, 0x61u8, 0x72u8, 0x61u8, 0x6du8, 0x65u8, 0x74u8, 0x65u8, 0x72u8, 0x73u8]
}

pub fn bytes_msg_invalid_params() -> (r: Vec<u8>)
    ensures
        r@ == msg_invalid_params(),
{
    let mut v: Vec<u8> = Vec::new();
    v.push(0x69);
    v.push(0x6e);
    v.push(0x76);
    v.push(0x61);
    v.push(0x6c);
    v.push(0x69);
    v.push(0x64);
    v.push(0x20);
    v.push(0x74);
    v.push(0x6f);
    v.push(0x6f);
    v.push(0x6c);
    v.push(0x20);
    v.push(0x63);
    v.push(0x61);
    v.push(0x6c);
    v.push(0x6c);
    v.push(0x20);
    v.push(0x70);
    v.push(0x61);
    v.push(0x72);
    v.push(0x61);
    v.push(0x6d);
    v.push(0x65);
    v.push(0x74);
    v.push(0x65);
    v.push(0x72);
    v.push(0x73);
    proof {
        assert(v@ =~= msg_invalid_params());
    }
    v
}

/// "tool result is not content"
pub open spec fn msg_not_content() -> Seq<u8> {
    seq![0x74u8, 0x6fu8, 0x6fu8, 0x6cu8, 0x20u8, 0x72u8, 0x65u8, 0x73u8, 0x75u8, 0x6cu8, 0x74u8, 0x20u8, 0x69u8, 0x73u8, 0x20u8, 0x6eu8, 0x6fu8, 0x74u8, 0x20u8, 0x63u8, 0x6fu8, 0x6eu8, 0x74u8, 0x65u8, 0x6eu8, 0x74u8]
}

pub fn bytes_msg_not_content() -> (r: Vec<u8>)
    ensures
        r@ == msg_not_content(),
{
    let mut v: Vec<u8> = Vec::new();
    v.push(0x74);
    v.push(0x6f);
    v.push(0x6f);
    v.push(0x6c);
    v.push(0x20);
    v.push(0x72);
    v.push(0x65);
    v.push(0x73);
    v.push(0x75);
    v.push(0x6c);
    v.push(0x74);
    v.push(0x20);
    v.push(0x69);
    v.push(0x73);
    v.push(0x20);
    v.push(0x6e);
    v.push(0x6f);
    v.push(0x74);
    v.push(0x20);
    v.push(0x63);
    v.push(0x6f);
    v.push(0x6e);
    v.push(0x74);
    v.push(0x65);
    v.push(0x6e);
    v.push(0x74);
    proof {
        assert(v@ =~= msg_not_content());
    }
    v
}

// ---------------------------------------------------------------------------
// Tool failures and content
// ---------------------------------------------------------------------------

/// Why a tool call failed.
#[derive(Debug, PartialEq, Eq)]
pub enum ToolError {
    ExecutionError(Vec<u8>),
    InvalidParameters(Vec<u8>),
    NotFound(Vec<u8>),
}

#[verifier::ext_equal]
pub enum SpecToolError {
    ExecutionError(Seq<u8>),
    InvalidParameters(Seq<u8>),
    NotFound(Seq<u8>),
}

impl View for ToolError {
    type V = SpecToolError;

    open spec fn view(&self) -> SpecToolError {
        match self {
            ToolError::ExecutionError(m) => SpecToolError::ExecutionError(m@),
            ToolError::InvalidParameters(m) => SpecToolError::InvalidParameters(m@),
            ToolError::NotFound(m) => SpecToolError::NotFound(m@),
        }
    }
}

/// One entry of a tool result.
#[derive(Debug, PartialEq, Eq)]
pub enum Content {
    Text(Vec<u8>),
}

#[verifier::ext_equal]
pub enum SpecContent {
    Text(Seq<u8>),
}

impl View for Content {
    type V = SpecContent;

    open spec fn view(&self) -> SpecContent {
        match self {
            Content::Text(t) => SpecContent::Text(t@),
        }
    }
}

/// A tool descriptor: its stable name, its human description, and the JSON
/// schema of its parameters. The invocation capability is paired with the
/// descriptor by the caller that owns the handlers.
#[derive(Debug, PartialEq, Eq)]
pub struct Tool {
    pub name: Vec<u8>,
    pub description: Vec<u8>,
    pub input_schema: JsonValue,
}

#[verifier::ext_equal]
pub struct SpecTool {
    pub name: Seq<u8>,
    pub description: Seq<u8>,
    pub input_schema: SpecJson,
}

impl View for Tool {
    type V = SpecTool;

    open spec fn view(&self) -> SpecTool {
        SpecTool { name: self.name@, description: self.description@, input_schema: self.input_schema@ }
    }
}

pub open spec fn view_tools(tools: Seq<Tool>) -> Seq<SpecTool> {
    Seq::new(
        tools.len(),
        |i: int|
            if 0 <= i && i < tools.len() {
                tools[i]@
            } else {
                SpecTool { name: Seq::empty(), description: Seq::empty(), input_schema: SpecJson::Null }
            },
    )
}

// ---------------------------------------------------------------------------
// The server: name, description, frozen tools, frozen context
// ---------------------------------------------------------------------------

/// A server's frozen description: its tool table and its shared state.
pub struct MCPServer<V> {
    name: Vec<u8>,
    description: Vec<u8>,
    tools: Vec<Tool>,
    ctx: Context<V>,
}

/// Accumulates tools and state, then freezes them into an `MCPServer`.
pub struct MCPServerBuilder<V> {
    name: Vec<u8>,
    description: Vec<u8>,
    tools: Vec<Tool>,
    ctx: Context<V>,
}

pub open spec fn tool_names_unique(tools: Seq<SpecTool>) -> bool {
    forall|i: int, j: int| 0 <= i < j < tools.len() ==> tools[i].name != tools[j].name
}

impl<V> MCPServerBuilder<V> {
    pub closed spec fn spec_name(&self) -> Seq<u8> {
        self.name@
    }

    pub closed spec fn spec_description(&self) -> Seq<u8> {
        self.description@
    }

    pub closed spec fn spec_tools(&self) -> Seq<SpecTool> {
        view_tools(self.tools@)
    }

    pub closed spec fn spec_state(&self) -> Map<u64, V> {
        self.ctx.as_map()
    }

    pub closed spec fn wf(&self) -> bool {
        tool_names_unique(self.spec_tools()) && self.ctx.wf()
    }

    /// Start a server description from its name and instructions.
    pub fn new(name: Vec<u8>, description: Vec<u8>) -> (r: MCPServerBuilder<V>)
        ensures
            r.wf(),
            r.spec_name() == name@,
            r.spec_description() == description@,
            r.spec_tools() == Seq::<SpecTool>::empty(),
            r.spec_state() == Map::<u64, V>::empty(),
    {
        let r = MCPServerBuilder { name, description, tools: Vec::new(), ctx: Context::new() };
        proof {
            assert(r.spec_tools() =~= Seq::<SpecTool>::empty());
        }
        r
    }

    /// Add a tool; a tool added later under the same name replaces the
    /// earlier one.
    pub fn with_tool(self, tool: Tool) -> (r: MCPServerBuilder<V>)
        requires
            self.wf(),
        ensures
            r.wf(),
            r.spec_name() == self.spec_name(),
            r.spec_description() == self.spec_description(),
            r.spec_state() == self.spec_state(),
            match spec_find_tool(self.spec_tools(), tool.name@, 0) {
                Some(i) => r.spec_tools() == self.spec_tools().update(i, tool@),
                None => r.spec_tools() == self.spec_tools().push(tool@),
            },
    {
        let ghost gtool = tool@;
        let MCPServerBuilder { name, description, mut tools, ctx } = self;
        let ghost pre = view_tools(tools@);
        match find_tool_in(&tools, &tool.name) {
            Some(i) => {
                tools.set(i, tool);
                proof {
                    assert(view_tools(tools@) =~= pre.update(i as int, gtool));
                    assert forall|a: int, b: int|
                        0 <= a < b < view_tools(tools@).len() implies view_tools(tools@)[a].name
                        != view_tools(tools@)[b].name by {
                        assert(view_tools(tools@)[a] == if a == i as int {
                            gtool
                        } else {
                            pre[a]
                        });
                        assert(view_tools(tools@)[b] == if b == i as int {
                            gtool
                        } else {
                            pre[b]
                        });
                    }
                }
            },
            None => {
                tools.push(tool);
                proof {
                    assert(view_tools(tools@) =~= pre.push(gtool));
                    assert forall|a: int, b: int|
                        0 <= a < b < view_tools(tools@).len() implies view_tools(tools@)[a].name
                        != view_tools(tools@)[b].name by {
                        if b == pre.len() as int {
                            assert(view_tools(tools@)[a] == pre[a]);
                            assert(pre[a].name != gtool.name);
                        } else {
                            assert(view_tools(tools@)[a] == pre[a]);
                            assert(view_tools(tools@)[b] == pre[b]);
                        }
                    }
                }
            },
        }
        MCPServerBuilder { name, description, tools, ctx }
    }

    /// Register shared state under its tag; a later insert under the same
    /// tag wins.
    pub fn with_state(self, tag: u64, state: V) -> (r: MCPServerBuilder<V>)
        requires
            self.wf(),
        ensures
            r.wf(),
            r.spec_name() == self.spec_name(),
            r.spec_description() == self.spec_description(),
            r.spec_tools() == self.spec_tools(),
            r.spec_state() == self.spec_state().insert(tag, state),
    {
        let MCPServerBuilder { name, description, tools, mut ctx } = self;
        ctx.insert(tag, state);
        MCPServerBuilder { name, description, tools, ctx }
    }

    /// Freeze the description: after this the tools and the context are
    /// only read.
    pub fn build(self) -> (r: MCPServer<V>)
        requires
            self.wf(),
        ensures
            r.wf(),
            r.spec_name() == self.spec_name(),
            r.spec_description() == self.spec_description(),
            r.spec_tools() == self.spec_tools(),
            r.spec_state() == self.spec_state(),
    {
        let MCPServerBuilder { name, description, tools, ctx } = self;
        MCPServer { name, description, tools, ctx }
    }
}

/// Index of the first tool with the given name, scanning from `i`.
pub open spec fn spec_find_tool(tools: Seq<SpecTool>, name: Seq<u8>, i: int) -> Option<int>
    decreases tools.len() - i,
{
    if i < 0 || i >= tools.len() {
        None
    } else if tools[i].name == name {
        Some(i)
    } else {
        spec_find_tool(tools, name, i + 1)
    }
}

fn find_tool_in(tools: &Vec<Tool>, name: &Vec<u8>) -> (r: Option<usize>)
    ensures
        match spec_find_tool(view_tools(tools@), name@, 0) {
            Some(i) => r matches Some(x) && x as int == i && i < tools@.len(),
            None => r is None,
        },
        r matches Some(x) ==> x < tools@.len() && view_tools(tools@)[x as int].name == name@,
        r is None ==> forall|t: int| 0 <= t < tools@.len() ==> view_tools(tools@)[t].name != name@,
{
    let n = tools.len();
    let mut i: usize = 0;
    while i < n
        invariant
            i <= n,
            n == tools@.len(),
            spec_find_tool(view_tools(tools@), name@, 0) == spec_find_tool(
                view_tools(tools@),
                name@,
                i as int,
            ),
            forall|t: int| 0 <= t < i as int ==> view_tools(tools@)[t].name != name@,
        decreases n - i,
    {
        if crate::decode::bytes_eq(&tools[i].name, name) {
            return Some(i);
        }
        i = i + 1;
    }
    None
}

impl<V> MCPServer<V> {
    pub closed spec fn spec_name(&self) -> Seq<u8> {
        self.name@
    }

    pub closed spec fn spec_description(&self) -> Seq<u8> {
        self.description@
    }

    pub closed spec fn spec_tools(&self) -> Seq<SpecTool> {
        view_tools(self.tools@)
    }

    pub closed spec fn spec_state(&self) -> Map<u64, V> {
        self.ctx.as_map()
    }

    pub closed spec fn wf(&self) -> bool {
        tool_names_unique(self.spec_tools()) && self.ctx.wf()
    }

    /// The server's name.
    pub fn name(&self) -> (r: &Vec<u8>)
        ensures
            r@ == self.spec_name(),
    {
        &self.name
    }

    /// The server's instructions to its clients.
    pub fn instructions(&self) -> (r: &Vec<u8>)
        ensures
            r@ == self.spec_description(),
    {
        &self.description
    }

    /// The registered tool descriptors, in registration order.
    pub fn list_tools(&self) -> (r: &Vec<Tool>)
        ensures
            view_tools(r@) == self.spec_tools(),
    {
        &self.tools
    }

    /// The shared state registered under a tag.
    pub fn state(&self, tag: u64) -> (r: Option<&V>)
        ensures
            self.wf() ==> match self.spec_state().contains_key(tag) {
                true => r matches Some(x) && *x == self.spec_state()[tag],
                false => r is None,
            },
    {
        self.ctx.get(tag)
    }

    /// The server's frozen context.
    pub fn context(&self) -> (r: &Context<V>)
        ensures
            r.as_map() == self.spec_state(),
            self.wf() ==> r.wf(),
    {
        &self.ctx
    }

    /// The result of `tools/list`: the name, description and schema of every
    /// registered tool.
    pub fn list_tools_result(&self) -> (r: JsonValue)
        ensures
            r@ == spec_list_tools_result(self.spec_tools()),
    {
        let n = self.tools.len();
        let mut items: Vec<JsonValue> = Vec::new();
        let mut i: usize = 0;
        while i < n
            invariant
                i <= n,
                n == self.tools@.len(),
                items@.len() == i as int,
                forall|t: int| 0 <= t < i as int ==> #[trigger] items@[t]@ == spec_tool_json(
                    view_tools(self.tools@)[t],
                ),
            decreases n - i,
        {
            let tool = &self.tools[i];
            let mut fields: Vec<(Vec<u8>, JsonValue)> = Vec::new();
            fields.push((bytes_name(), JsonValue::Str(clone_bytes(&tool.name))));
            fields.push((bytes_description(), JsonValue::Str(clone_bytes(&tool.description))));
            fields.push((bytes_input_schema(), clone_json(&tool.input_schema)));
            let ghost gf = fields@;
            let obj = JsonValue::Obj(fields);
            proof {
                assert(view_json_fields(gf) =~= spec_tool_json(view_tools(self.tools@)[i as int])
                    ->Obj_0);
            }
            items.push(obj);
            i = i + 1;
        }
        let ghost gitems = items@;
        let arr = JsonValue::Arr(items);
        let mut outer: Vec<(Vec<u8>, JsonValue)> = Vec::new();
        outer.push((bytes_tools(), arr));
        let ghost gouter = outer@;
        let r = JsonValue::Obj(outer);
        proof {
            assert forall|t: int| 0 <= t < gitems.len() implies view_json_seq(gitems)[t]
                == spec_tools_json(self.spec_tools())[t] by {
                assert(gitems[t]@ == spec_tool_json(view_tools(self.tools@)[t]));
            }
            assert(view_json_seq(gitems) =~= spec_tools_json(self.spec_tools()));
            assert(view_json_fields(gouter) =~= spec_list_tools_result(self.spec_tools())->Obj_0);
        }
        r
    }

    /// Decide what a request asks of this server: the `tools/list` response,
    /// a tool to invoke with its arguments, or an error response for an
    /// unknown method, a malformed call, or an unknown tool.
    pub fn route_request(&self, req: &JsonRpcRequest) -> (r: RouteAction)
        ensures
            r@ == spec_route(self.spec_tools(), req@),
            r matches RouteAction::InvokeTool { index, .. } ==> index < self.spec_tools().len(),
    {
        if crate::decode::bytes_eq(&req.method, &bytes_tools_list()) {
            let result = self.list_tools_result();
            return RouteAction::Respond(
                JsonRpcResponse::Success { id: clone_bytes(&req.id), result },
            );
        }
        if !crate::decode::bytes_eq(&req.method, &bytes_tools_call()) {
            return RouteAction::Respond(
                JsonRpcResponse::Error {
                    id: clone_bytes(&req.id),
                    error: ErrorData {
                        code: METHOD_NOT_FOUND,
                        message: bytes_msg_unknown_method(),
                        data: None,
                    },
                },
            );
        }
        let fields = match &req.params {
            JsonValue::Obj(fields) => fields,
            _ => {
                return RouteAction::Respond(
                    JsonRpcResponse::Error {
                        id: clone_bytes(&req.id),
                        error: ErrorData {
                            code: INVALID_PARAMS,
                            message: bytes_msg_invalid_params(),
                            data: None,
                        },
                    },
                );
            },
        };
        let tool_name = match obj_get(fields, &bytes_name()) {
            Some(JsonValue::Str(nm)) => nm,
            _ => {
                return RouteAction::Respond(
                    JsonRpcResponse::Error {
                        id: clone_bytes(&req.id),
                        error: ErrorData {
                            code: INVALID_PARAMS,
                            message: bytes_msg_invalid_params(),
                            data: None,
                        },
                    },
                );
            },
        };
        match find_tool_in(&self.tools, tool_name) {
            Some(index) => {
                let arguments = match obj_get(fields, &bytes_arguments()) {
                    Some(a) => clone_json(a),
                    None => JsonValue::Null,
                };
                RouteAction::InvokeTool { index, arguments }
            },
            None => RouteAction::Respond(
                JsonRpcResponse::Error {
                    id: clone_bytes(&req.id),
                    error: ErrorData {
                        code: METHOD_NOT_FOUND,
                        message: bytes_msg_unknown_tool(),
                        data: None,
                    },
                },
            ),
        }
    }
}

// ---------------------------------------------------------------------------
// Routing (spec)
// ---------------------------------------------------------------------------

pub open spec fn spec_tool_json(t: SpecTool) -> SpecJson {
    SpecJson::Obj(
        seq![
            (key_name(), SpecJson::Str(t.name)),
            (key_description(), SpecJson::Str(t.description)),
            (key_input_schema(), t.input_schema),
        ],
    )
}

pub open spec fn spec_tools_json(tools: Seq<SpecTool>) -> Seq<SpecJson> {
    Seq::new(
        tools.len(),
        |i: int|
            if 0 <= i && i < tools.len() {
                spec_tool_json(tools[i])
            } else {
                SpecJson::Null
            },
    )
}

pub open spec fn spec_list_tools_result(tools: Seq<SpecTool>) -> SpecJson {
    SpecJson::Obj(seq![(key_tools(), SpecJson::Arr(spec_tools_json(tools)))])
}

/// What the router decides for a request.
#[derive(Debug)]
pub enum RouteAction {
    /// Answer at once, without any tool running.
    Respond(JsonRpcResponse),
    /// Invoke the tool at `index` with these arguments.
    InvokeTool { index: usize, arguments: JsonValue },
}

pub enum SpecRouteAction {
    Respond(SpecResponse),
    InvokeTool { index: int, arguments: SpecJson },
}

impl View for RouteAction {
    type V = SpecRouteAction;

    open spec fn view(&self) -> SpecRouteAction {
        match self {
            RouteAction::Respond(resp) => SpecRouteAction::Respond(resp@),
            RouteAction::InvokeTool { index, arguments } => SpecRouteAction::InvokeTool {
                index: *index as int,
                arguments: arguments@,
            },
        }
    }
}

pub open spec fn spec_error_response(id: Seq<u8>, code: int, message: Seq<u8>) -> SpecResponse {
    SpecResponse::Error { id, error: SpecErrorData { code, message, data: None } }
}

pub open spec fn spec_route(tools: Seq<SpecTool>, req: SpecRequest) -> SpecRouteAction {
    if req.method == method_tools_list() {
        SpecRouteAction::Respond(
            SpecResponse::Success { id: req.id, result: spec_list_tools_result(tools) },
        )
    } else if req.method == method_tools_call() {
        match req.params {
            SpecJson::Obj(fields) => match spec_obj_get(fields, key_name()) {
                Some(SpecJson::Str(nm)) => match spec_find_tool(tools, nm, 0) {
                    Some(i) => SpecRouteAction::InvokeTool {
                        index: i,
                        arguments: match spec_obj_get(fields, key_arguments()) {
                            Some(a) => a,
                            None => SpecJson::Null,
                        },
                    },
                    None => SpecRouteAction::Respond(
                        spec_error_response(req.id, METHOD_NOT_FOUND as int, msg_unknown_tool()),
                    ),
                },
                _ => SpecRouteAction::Respond(
                    spec_error_response(req.id, INVALID_PARAMS as int, msg_invalid_params()),
                ),
            },
            _ => SpecRouteAction::Respond(
                spec_error_response(req.id, INVALID_PARAMS as int, msg_invalid_params()),
            ),
        }
    } else {
        SpecRouteAction::Respond(
            spec_error_response(req.id, METHOD_NOT_FOUND as int, msg_unknown_method()),
        )
    }
}

// ---------------------------------------------------------------------------
// Tool results into protocol content
// ---------------------------------------------------------------------------

/// The text of one content entry, if the value has the content shape.
pub open spec fn spec_content_item(v: SpecJson) -> Option<Seq<u8>> {
    match v {
        SpecJson::Obj(fields) => if spec_obj_get(fields, key_type()) == Some(
            SpecJson::Str(key_text()),
        ) {
            match spec_obj_get(fields, key_text()) {
                Some(SpecJson::Str(t)) => Some(t),
                _ => None,
            }
        } else {
            None
        },
        _ => None,
    }
}

pub open spec fn spec_contents_from(items: Seq<SpecJson>, i: int) -> Option<Seq<SpecContent>>
    decreases items.len() - i,
{
    if i < 0 || i >= items.len() {
        Some(Seq::empty())
    } else {
        match spec_content_item(items[i]) {
            Some(t) => match spec_contents_from(items, i + 1) {
                Some(r) => Some(seq![SpecContent::Text(t)] + r),
                None => None,
            },
            None => None,
        }
    }
}

/// How a tool's JSON result becomes content entries: a number, string or
/// boolean becomes one text entry holding its text; null becomes no entry;
/// an array must decode as content entries directly; an object never does.
pub open spec fn spec_coerce_content(v: SpecJson) -> Result<Seq<SpecContent>, SpecToolError> {
    match v {
        SpecJson::Null => Ok(Seq::empty()),
        SpecJson::Bool(b) => Ok(
            seq![SpecContent::Text(
                if b {
                    true_text()
                } else {
                    false_text()
                },
            )],
        ),
        SpecJson::Num(lex) => Ok(seq![SpecContent::Text(lex)]),
        SpecJson::Str(s) => Ok(seq![SpecContent::Text(s)]),
        SpecJson::Arr(items) => match spec_contents_from(items, 0) {
            Some(cs) => Ok(cs),
            None => Err(SpecToolError::ExecutionError(msg_not_content())),
        },
        SpecJson::Obj(_) => Err(SpecToolError::ExecutionError(msg_not_content())),
    }
}

pub open spec fn view_contents(cs: Seq<Content>) -> Seq<SpecContent> {
    Seq::new(
        cs.len(),
        |i: int|
            if 0 <= i && i < cs.len() {
                cs[i]@
            } else {
                SpecContent::Text(Seq::empty())
            },
    )
}

fn content_item(v: &JsonValue) -> (r: Option<Vec<u8>>)
    ensures
        match spec_content_item(v@) {
            Some(t) => r matches Some(x) && x@ == t,
            None => r is None,
        },
{
    let fields = match v {
        JsonValue::Obj(fields) => fields,
        _ => {
            return None;
        },
    };
    let tag_ok = match obj_get(fields, &bytes_type()) {
        Some(JsonValue::Str(tag)) => crate::decode::bytes_eq(tag, &bytes_text()),
        _ => false,
    };
    if !tag_ok {
        return None;
    }
    match obj_get(fields, &bytes_text()) {
        Some(JsonValue::Str(t)) => Some(clone_bytes(t)),
        _ => None,
    }
}

/// Coerce a tool's JSON result into content entries.
pub fn coerce_content(v: &JsonValue) -> (r: Result<Vec<Content>, ToolError>)
    ensures
        match spec_coerce_content(v@) {
            Ok(cs) => r matches Ok(x) && view_contents(x@) == cs,
            Err(e) => r matches Err(x) && x@ == e,
        },
{
    match v {
        JsonValue::Null => {
            let out: Vec<Content> = Vec::new();
            proof {
                assert(view_contents(out@) =~= Seq::<SpecContent>::empty());
            }
            Ok(out)
        },
        JsonValue::Bool(b) => {
            let mut out: Vec<Content> = Vec::new();
            if *b {
                out.push(Content::Text(bytes_true_text()));
            } else {
                out.push(Content::Text(bytes_false_text()));
            }
            proof {
                assert(view_contents(out@) =~= spec_coerce_content(v@)->Ok_0);
            }
            Ok(out)
        },
        JsonValue::Num(lex) => {
            let mut out: Vec<Content> = Vec::new();
            out.push(Content::Text(clone_bytes(lex)));
            proof {
                assert(view_contents(out@) =~= seq![SpecContent::Text(lex@)]);
            }
            Ok(out)
        },
        JsonValue::Str(s) => {
            let mut out: Vec<Content> = Vec::new();
            out.push(Content::Text(clone_bytes(s)));
            proof {
                assert(view_contents(out@) =~= seq![SpecContent::Text(s@)]);
            }
            Ok(out)
        },
        JsonValue::Arr(items) => {
            let ghost gitems = view_json_seq(items@);
            let n = items.len();
            let mut out: Vec<Content> = Vec::new();
            let mut i: usize = 0;
            while i < n
                invariant
                    i <= n,
                    n == items@.len(),
                    gitems == view_json_seq(items@),
                    gitems.len() == n,
                    v@ == SpecJson::Arr(gitems),
                    match spec_contents_from(gitems, i as int) {
                        Some(rest) => spec_contents_from(gitems, 0) == Some(
                            view_contents(out@) + rest,
                        ),
                        None => spec_contents_from(gitems, 0) is None,
                    },
                decreases n - i,
            {
                match content_item(&items[i]) {
                    Some(t) => {
                        let ghost pre = out@;
                        let ghost gt = t@;
                        out.push(Content::Text(t));
                        proof {
                            assert(gitems[i as int] == items@[i as int]@);
                            assert(spec_content_item(gitems[i as int]) == Some(gt));
                            assert(view_contents(out@) =~= view_contents(pre) + seq![
                                SpecContent::Text(gt),
                            ]);
                            if spec_contents_from(gitems, i as int + 1) is Some {
                                let rest = spec_contents_from(gitems, i as int + 1)->Some_0;
                                assert(view_contents(pre) + (seq![SpecContent::Text(gt)] + rest)
                                    =~= view_contents(out@) + rest);
                            }
                        }
                    },
                    None => {
                        proof {
                            assert(gitems[i as int] == items@[i as int]@);
                            assert(spec_contents_from(gitems, i as int) is None);
                        }
                        return Err(ToolError::ExecutionError(bytes_msg_not_content()));
                    },
                }
                i = i + 1;
            }
            proof {
                assert(spec_contents_from(gitems, n as int) == Some(Seq::<SpecContent>::empty()));
                assert(view_contents(out@) + Seq::<SpecContent>::empty() =~= view_contents(out@));
            }
            Ok(out)
        },
        JsonValue::Obj(_) => Err(ToolError::ExecutionError(bytes_msg_not_content())),
    }
}

// ---------------------------------------------------------------------------
// Packaging a finished tool call as a response
// ---------------------------------------------------------------------------

pub open spec fn spec_content_json(c: SpecContent) -> SpecJson {
    match c {
        SpecContent::Text(t) => SpecJson::Obj(
            seq![(key_type(), SpecJson::Str(key_text())), (key_text(), SpecJson::Str(t))],
        ),
    }
}

pub open spec fn spec_contents_json(cs: Seq<SpecContent>) -> Seq<SpecJson> {
    Seq::new(
        cs.len(),
        |i: int|
            if 0 <= i && i < cs.len() {
                spec_content_json(cs[i])
            } else {
                SpecJson::Null
            },
    )
}

pub open spec fn spec_tool_error_response(id: Seq<u8>, e: SpecToolError) -> SpecResponse {
    match e {
        SpecToolError::ExecutionError(m) => spec_error_response(id, INTERNAL_ERROR as int, m),
        SpecToolError::InvalidParameters(m) => spec_error_response(id, INVALID_PARAMS as int, m),
        SpecToolError::NotFound(m) => spec_error_response(id, METHOD_NOT_FOUND as int, m),
    }
}

/// The response for a finished tool call: on success, the coerced content
/// entries as the result array; on any failure, an error response whose code
/// names the failure's kind.
pub open spec fn spec_finish_tool_call(id: Seq<u8>, outcome: Result<SpecJson, SpecToolError>) -> SpecResponse {
    match outcome {
        Ok(v) => match spec_coerce_content(v) {
            Ok(cs) => SpecResponse::Success { id, result: SpecJson::Arr(spec_contents_json(cs)) },
            Err(e) => spec_tool_error_response(id, e),
        },
        Err(e) => spec_tool_error_response(id, e),
    }
}

fn tool_error_response(id: Vec<u8>, e: ToolError) -> (r: JsonRpcResponse)
    ensures
        r@ == spec_tool_error_response(id@, e@),
{
    match e {
        ToolError::ExecutionError(m) => JsonRpcResponse::Error {
            id,
            error: ErrorData { code: INTERNAL_ERROR, message: m, data: None },
        },
        ToolError::InvalidParameters(m) => JsonRpcResponse::Error {
            id,
            error: ErrorData { code: INVALID_PARAMS, message: m, data: None },
        },
        ToolError::NotFound(m) => JsonRpcResponse::Error {
            id,
            error: ErrorData { code: METHOD_NOT_FOUND, message: m, data: None },
        },
    }
}

/// Package a tool call's outcome as the response to its request.
pub fn finish_tool_call(id: Vec<u8>, outcome: Result<JsonValue, ToolError>) -> (r: JsonRpcResponse)
    ensures
        r@ == spec_finish_tool_call(
            id@,
            match outcome {
                Ok(v) => Ok(v@),
                Err(e) => Err(e@),
            },
        ),
{
    let v = match outcome {
        Ok(v) => v,
        Err(e) => {
            return tool_error_response(id, e);
        },
    };
    let contents = match coerce_content(&v) {
        Ok(cs) => cs,
        Err(e) => {
            return tool_error_response(id, e);
        },
    };
    let ghost gcs = view_contents(contents@);
    let n = contents.len();
    let mut items: Vec<JsonValue> = Vec::new();
    let mut i: usize = 0;
    while i < n
        invariant
            i <= n,
            n == contents@.len(),
            gcs == view_contents(contents@),
            items@.len() == i as int,
            forall|t: int| 0 <= t < i as int ==> #[trigger] items@[t]@ == spec_content_json(gcs[t]),
        decreases n - i,
    {
        let text = match &contents[i] {
            Content::Text(t) => clone_bytes(t),
        };
        let mut fields: Vec<(Vec<u8>, JsonValue)> = Vec::new();
        fields.push((bytes_type(), JsonValue::Str(bytes_text())));
        fields.push((bytes_text(), JsonValue::Str(text)));
        let ghost gf = fields@;
        let obj = JsonValue::Obj(fields);
        proof {
            assert(view_json_fields(gf) =~= spec_content_json(gcs[i as int])->Obj_0);
        }
        items.push(obj);
        i = i + 1;
    }
    let ghost gitems = items@;
    let result = JsonValue::Arr(items);
    proof {
        assert forall|t: int| 0 <= t < gitems.len() implies view_json_seq(gitems)[t]
            == spec_contents_json(gcs)[t] by {
            assert(gitems[t]@ == spec_content_json(gcs[t]));
        }
        assert(view_json_seq(gitems) =~= spec_contents_json(gcs));
    }
    JsonRpcResponse::Success { id, result }
}

} // verus!
