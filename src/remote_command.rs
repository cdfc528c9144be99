//! Building the request for a remote run, one argument or variable at a
//! time.

use vstd::prelude::*;
use crate::protocol::{CommandRequest, pairs_view, strings_view};

verus! {

/// A request under construction. Each call returns the extended value.
#[derive(Debug)]
pub struct RemoteCommand {
    pub program: String,
    pub args: Option<Vec<String>>,
    pub env: Option<Vec<(String, String)>>,
}

impl RemoteCommand {
    pub open spec fn args_view(&self) -> Option<Seq<Seq<char>>> {
        match self.args {
            Some(a) => Some(strings_view(a@)),
            None => None,
        }
    }

    pub open spec fn env_view(&self) -> Option<Seq<(Seq<char>, Seq<char>)>> {
        match self.env {
            Some(e) => Some(pairs_view(e@)),
            None => None,
        }
    }

    /// A request to run `program`, with no arguments and no variables.
    pub fn new(program: &str) -> (r: RemoteCommand)
        ensures
            r.program@ == program@,
            r.args is None,
            r.env is None,
    {
        RemoteCommand { program: String::from_str(program), args: None, env: None }
    }

    /// Appends an argument after those given so far.
    pub fn arg(self, arg: &str) -> (r: RemoteCommand)
        ensures
            r.program@ == self.program@,
            r.args_view() == Some(
                match self.args_view() {
                    Some(a) => a,
                    None => Seq::<Seq<char>>::empty(),
                }.push(arg@),
            ),
            r.env_view() == self.env_view(),
    {
        let RemoteCommand { program, args, env } = self;
        let mut list = match args {
            Some(a) => a,
            None => Vec::new(),
        };
        let ghost before = list@;
        list.push(String::from_str(arg));
        proof {
            assert(strings_view(list@) =~= strings_view(before).push(arg@));
            if self.args is None {
                assert(strings_view(before) =~= Seq::<Seq<char>>::empty());
            }
        }
        RemoteCommand { program, args: Some(list), env }
    }

    /// Appends a variable after those given so far. Where a key is given
    /// twice, the later value is the one the program sees.
    pub fn env(self, key: &str, value: &str) -> (r: RemoteCommand)
        ensures
            r.program@ == self.program@,
            r.args_view() == self.args_view(),
            r.env_view() == Some(
                match self.env_view() {
                    Some(e) => e,
                    None => Seq::<(Seq<char>, Seq<char>)>::empty(),
                }.push((key@, value@)),
            ),
    {
        let RemoteCommand { program, args, env } = self;
        let mut list = match env {
            Some(e) => e,
            None => Vec::new(),
        };
        let ghost before = list@;
        list.push((String::from_str(key), String::from_str(value)));
        proof {
            assert(pairs_view(list@) =~= pairs_view(before).push((key@, value@)));
            if self.env is None {
                assert(pairs_view(before) =~= Seq::<(Seq<char>, Seq<char>)>::empty());
            }
        }
        RemoteCommand { program, args, env: Some(list) }
    }

    /// The request that this command sends.
    pub fn into_request(self) -> (r: CommandRequest)
        ensures
            r.program@ == self.program@,
            r.args_view() == self.args_view(),
            r.env_view() == self.env_view(),
    {
        CommandRequest { program: self.program, args: self.args, env: self.env }
    }
}

} // verus!
