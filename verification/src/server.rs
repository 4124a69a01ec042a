//! Registry of the tools that the MCP server offers.
use vstd::prelude::*;
use vstd::string::*;
use crate::error::{Error, Result};

verus! {

broadcast use vstd::string::group_string_axioms;

/// Tool definition for MCP server.
#[derive(Debug, Clone)]
pub struct ToolDefinition {
    pub name: String,
    pub description: String,
    pub input_schema: String,
}

/// The first tool of `tools` whose name is `name`.
pub open spec fn lookup(tools: Seq<ToolDefinition>, name: Seq<char>) -> Option<ToolDefinition>
    decreases tools.len(),
{
    if tools.len() == 0 {
        None
    } else if tools[0].name@ == name {
        Some(tools[0])
    } else {
        lookup(tools.drop_first(), name)
    }
}

/// Some tool of `tools` has the name `name`.
pub open spec fn has_tool_named(tools: Seq<ToolDefinition>, name: Seq<char>) -> bool {
    exists|i: int| 0 <= i < tools.len() && #[trigger] tools[i].name@ == name
}

/// No two tools of `tools` share a name.
pub open spec fn names_unique(tools: Seq<ToolDefinition>) -> bool {
    forall|i: int, j: int|
        0 <= i < tools.len() && 0 <= j < tools.len() && i != j ==> #[trigger] tools[i].name@
            != #[trigger] tools[j].name@
}

/// The message of the error that refuses a second tool named `name`.
pub open spec fn duplicate_tool_message(name: Seq<char>) -> Seq<char> {
    "Tool '"@ + name + "' is already registered"@
}

/// `lookup` finds a tool exactly when one has the name, and what it finds
/// has that name and is one of the tools.
pub proof fn lemma_lookup(tools: Seq<ToolDefinition>, name: Seq<char>)
    ensures
        lookup(tools, name) is Some <==> has_tool_named(tools, name),
        lookup(tools, name) matches Some(t) ==> t.name@ == name && exists|i: int|
            0 <= i < tools.len() && tools[i] == t,
    decreases tools.len(),
{
    if tools.len() > 0 {
        lemma_lookup(tools.drop_first(), name);
        if has_tool_named(tools, name) && tools[0].name@ != name {
            let i = choose|i: int| 0 <= i < tools.len() && #[trigger] tools[i].name@ == name;
            assert(tools.drop_first()[i - 1].name@ == name);
        }
        if lookup(tools, name) is Some && tools[0].name@ != name {
            let t = lookup(tools, name)->0;
            let i = choose|i: int| 0 <= i < tools.len() - 1 && tools.drop_first()[i] == t;
            assert(tools[i + 1] == t);
            assert(tools[i + 1].name@ == name);
        }
    }
}

/// Law: once a tool is registered under a fresh name, looking that name up
/// gives the tool, and looking up any other name gives what it gave before.
pub proof fn law_lookup_after_register(tools: Seq<ToolDefinition>, tool: ToolDefinition, name: Seq<char>)
    requires
        !has_tool_named(tools, tool.name@),
    ensures
        lookup(tools.push(tool), tool.name@) == Some(tool),
        name != tool.name@ ==> lookup(tools.push(tool), name) == lookup(tools, name),
    decreases tools.len(),
{
    if tools.len() == 0 {
        assert(tools.push(tool).drop_first() =~= Seq::<ToolDefinition>::empty());
    } else {
        assert(tools.push(tool).drop_first() =~= tools.drop_first().push(tool));
        assert(tools[0].name@ != tool.name@);
        assert(!has_tool_named(tools.drop_first(), tool.name@)) by {
            if has_tool_named(tools.drop_first(), tool.name@) {
                let i = choose|i: int|
                    0 <= i < tools.len() - 1 && #[trigger] tools.drop_first()[i].name@ == tool.name@;
                assert(tools[i + 1].name@ == tool.name@);
            }
        }
        law_lookup_after_register(tools.drop_first(), tool, name);
    }
}

/// MCP Server for OpenSCAD model operations.
pub struct MCPServer {
    name: String,
    version: String,
    tools: Vec<ToolDefinition>,
}

impl MCPServer {
    #[verifier::type_invariant]
    spec fn unique_names(&self) -> bool {
        names_unique(self.tools@)
    }

    /// The registered tools, in registration order.
    pub closed spec fn tools(&self) -> Seq<ToolDefinition> {
        self.tools@
    }

    /// The server's name.
    pub closed spec fn name(&self) -> Seq<char> {
        self.name@
    }

    /// The server's version.
    pub closed spec fn version(&self) -> Seq<char> {
        self.version@
    }

    /// Create a new MCP server.
    pub fn new(name: String, version: String) -> (s: Self)
        ensures
            s.name() == name@,
            s.version() == version@,
            s.tools() == Seq::<ToolDefinition>::empty(),
            names_unique(s.tools()),
    {
        MCPServer { name, version, tools: Vec::new() }
    }

    /// Register a tool with the server; a second tool with the same name is refused.
    pub fn register_tool(&mut self, tool: ToolDefinition) -> (r: Result<()>)
        ensures
            final(self).name() == old(self).name(),
            final(self).version() == old(self).version(),
            names_unique(final(self).tools()),
            has_tool_named(old(self).tools(), tool.name@) ==> {
                &&& r matches Err(Error::Config(m)) && m@ == duplicate_tool_message(tool.name@)
                &&& final(self).tools() == old(self).tools()
            },
            !has_tool_named(old(self).tools(), tool.name@) ==> {
                &&& r is Ok
                &&& final(self).tools() == old(self).tools().push(tool)
            },
    {
        proof {
            use_type_invariant(&*self);
        }
        let n = self.tools.len();
        for i in 0..n
            invariant
                n == self.tools.len(),
                names_unique(self.tools@),
                forall|j: int| 0 <= j < i ==> self.tools@[j].name@ != tool.name@,
        {
            if self.tools[i].name == tool.name {
                let m = String::from_str("Tool '").concat(tool.name.as_str()).concat(
                    "' is already registered",
                );
                return Err(Error::Config(m));
            }
        }
        let ghost before = self.tools@;
        assert(!has_tool_named(before, tool.name@));
        let mut tools = Vec::new();
        std::mem::swap(&mut tools, &mut self.tools);
        tools.push(tool);
        assert(names_unique(tools@)) by {
            assert forall|i: int, j: int|
                0 <= i < tools@.len() && 0 <= j < tools@.len() && i != j implies #[trigger] tools@[i].name@
                != #[trigger] tools@[j].name@ by {
                if i < before.len() && j < before.len() {
                    assert(before[i] == tools@[i]);
                    assert(before[j] == tools@[j]);
                } else if i < before.len() {
                    assert(before[i] == tools@[i]);
                } else {
                    assert(before[j] == tools@[j]);
                }
            }
        }
        self.tools = tools;
        Ok(())
    }

    /// Get all registered tools.
    pub fn list_tools(&self) -> (r: Vec<&ToolDefinition>)
        ensures
            r@.len() == self.tools().len(),
            forall|i: int| 0 <= i < r@.len() ==> *r@[i] == self.tools()[i],
    {
        let mut r: Vec<&ToolDefinition> = Vec::new();
        for i in 0..self.tools.len()
            invariant
                r@.len() == i,
                forall|j: int| 0 <= j < i ==> *r@[j] == self.tools@[j],
        {
            r.push(&self.tools[i]);
        }
        r
    }

    /// Get server info: its name and version.
    pub fn info(&self) -> (r: (String, String))
        ensures
            r.0@ == self.name(),
            r.1@ == self.version(),
    {
        (self.name.clone(), self.version.clone())
    }

    /// Get a specific tool by name.
    pub fn get_tool(&self, name: &str) -> (r: Option<&ToolDefinition>)
        ensures
            r is Some <==> has_tool_named(self.tools(), name@),
            r matches Some(t) ==> Some(*t) == lookup(self.tools(), name@),
    {
        let wanted = String::from_str(name);
        let n = self.tools.len();
        assert(self.tools@.skip(0) =~= self.tools@);
        for i in 0..n
            invariant
                n == self.tools.len(),
                wanted@ == name@,
                lookup(self.tools@, name@) == lookup(self.tools@.skip(i as int), name@),
                forall|j: int| 0 <= j < i ==> self.tools@[j].name@ != name@,
        {
            assert(self.tools@.skip(i as int).drop_first() =~= self.tools@.skip(i + 1));
            if self.tools[i].name == wanted {
                proof {
                    lemma_lookup(self.tools@, name@);
                }
                return Some(&self.tools[i]);
            }
        }
        proof {
            lemma_lookup(self.tools@, name@);
            if has_tool_named(self.tools@, name@) {
                let j = choose|j: int| 0 <= j < self.tools@.len() && #[trigger] self.tools@[j].name@ == name@;
            }
        }
        None
    }
}

} // verus!
