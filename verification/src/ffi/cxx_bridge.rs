//! The node runner exposed to C++ callers.
use vstd::prelude::*;
use vstd::string::*;

verus! {

/// A node started by a foreign caller.
pub struct NodeRunner {
    name: Option<String>,
}

impl View for NodeRunner {
    type V = Option<Seq<char>>;

    closed spec fn view(&self) -> Option<Seq<char>> {
        match self.name {
            Some(n) => Some(n@),
            None => None,
        }
    }
}

/// A runner that has not been started.
pub fn new_node_runner() -> (r: Box<NodeRunner>)
    ensures
        r@ is None,
{
    Box::new(NodeRunner { name: None })
}

impl NodeRunner {
    /// Starts the runner under `name`; answers the line to log.
    pub fn start(&mut self, name: String) -> (line: String)
        ensures
            final(self)@ == Some(name@),
            line@ == "[CXX Bridge] NodeRunner started with name: "@ + name@,
    {
        let mut line = "[CXX Bridge] NodeRunner started with name: ".to_owned();
        line.append(name.as_str());
        self.name = Some(name);
        line
    }
}

} // verus!
