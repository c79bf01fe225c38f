//! Declarative side of the external tool servers: the manager that
//! tracks connected servers, and the tool-description lines of the
//! discovered tools. Connecting to the servers is the caller's
//! concern.

use vstd::prelude::*;

use crate::session::{mcp_tool_line, mcp_tool_lines};
use crate::text::str_views;

verus! {

/// Tracks the connected tool servers, by name; the connection handles
/// themselves live with the caller.
pub struct McpManager {
    pub services: Vec<String>,
}

impl McpManager {
    /// A manager with no connected server.
    pub fn empty() -> (r: McpManager)
        ensures
            r.services@.len() == 0,
    {
        McpManager { services: Vec::new() }
    }

    /// The number of connected servers.
    pub fn service_count(&self) -> (r: usize)
        ensures
            r == self.services@.len(),
    {
        self.services.len()
    }

    /// Record one connected server.
    pub fn record(&mut self, name: String)
        ensures
            final(self).services@ == old(self).services@.push(name),
    {
        self.services.push(name);
    }
}

/// The description lines of the discovered tools, skipping the
/// built-in ones at the front of the list.
pub fn mcp_tool_descriptions(tool_names: &Vec<String>, builtin_count: usize) -> (r: Vec<String>)
    ensures
        ({
            let names = str_views(tool_names@);
            let rest = if builtin_count >= names.len() {
                Seq::<Seq<char>>::empty()
            } else {
                names.subrange(builtin_count as int, names.len() as int)
            };
            str_views(r@) == mcp_tool_lines(rest)
        }),
{
    let mut r: Vec<String> = Vec::new();
    let n = tool_names.len();
    if builtin_count >= n {
        proof {
            assert(str_views(r@) =~= mcp_tool_lines(Seq::<Seq<char>>::empty()));
        }
        return r;
    }
    let mut i: usize = builtin_count;
    while i < n
        invariant
            builtin_count <= i <= n,
            n == tool_names@.len(),
            r@.len() == i - builtin_count,
            forall|j: int|
                0 <= j < r@.len() ==> (#[trigger] r@[j]@) == mcp_tool_line(
                    tool_names@[builtin_count + j]@,
                ),
        decreases n - i,
    {
        let ghost pre = r@;
        let mut line = tool_names[i].clone();
        line.append(": MCP tool");
        r.push(line);
        i = i + 1;
        proof {
            assert(forall|x: int| 0 <= x < pre.len() ==> r@[x] == pre[x]);
        }
    }
    proof {
        let names = str_views(tool_names@);
        let rest = names.subrange(builtin_count as int, names.len() as int);
        assert forall|j: int| 0 <= j < r@.len() implies #[trigger] str_views(r@)[j]
            == mcp_tool_lines(rest)[j] by {
            assert(r@[j]@ == mcp_tool_line(tool_names@[builtin_count + j]@));
            assert(rest[j] == names[builtin_count + j]);
        }
        assert(str_views(r@) =~= mcp_tool_lines(rest));
    }
    r
}

} // verus!
