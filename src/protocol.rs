//! The messages exchanged on a connection: one request, then a stream of
//! results ending in exactly one exit record.

use vstd::prelude::*;

verus! {

/// The tag of a result record, which decides where the record is routed.
#[derive(Clone, Copy, Debug, PartialEq, Eq, Structural)]
pub enum OutputType {
    Stdout,
    Stderr,
    Exit,
}

/// What the client asks the server to run.
///
/// `args` absent means no arguments. `env` pairs are applied in order over
/// the server's own environment, so a later pair wins over an earlier one
/// with the same key.
#[derive(Debug)]
pub struct CommandRequest {
    pub program: String,
    pub args: Option<Vec<String>>,
    pub env: Option<Vec<(String, String)>>,
}

/// The text of each string in `v`.
pub open spec fn strings_view(v: Seq<String>) -> Seq<Seq<char>> {
    v.map_values(|s: String| s@)
}

/// The text of each key and value in `v`.
pub open spec fn pairs_view(v: Seq<(String, String)>) -> Seq<(Seq<char>, Seq<char>)> {
    v.map_values(|p: (String, String)| (p.0@, p.1@))
}

impl CommandRequest {
    pub open spec fn args_view(&self) -> Option<Seq<Seq<char>>> {
        match self.args {
            Some(a) => Some(strings_view(a@)),
            None => None,
        }
    }

    pub open spec fn env_view(&self) -> Option<Seq<(Seq<char>, Seq<char>)>> {
        match self.env {
            Some(e) => Some(pairs_view(e@)),
            None => None,
        }
    }
}

/// A result record in the shape it has on the wire.
///
/// `exit_code` is present exactly on `Exit` records, and `is_final` is true
/// exactly on them.
#[derive(Debug)]
pub struct StreamLine {
    pub line: String,
    pub output_type: OutputType,
    pub is_final: bool,
    pub exit_code: Option<i32>,
}

/// A result message as the two ends reason about it: a line of one of the
/// child's output streams, or the child's exit status.
#[derive(Debug, Clone, PartialEq, Eq)]
pub enum ResultMessage {
    Stdout(String),
    Stderr(String),
    Exit(i32),
}

/// The mathematical value of a result message.
pub enum MessageView {
    Stdout(Seq<char>),
    Stderr(Seq<char>),
    Exit(i32),
}

impl View for ResultMessage {
    type V = MessageView;

    open spec fn view(&self) -> MessageView {
        match self {
            ResultMessage::Stdout(l) => MessageView::Stdout(l@),
            ResultMessage::Stderr(l) => MessageView::Stderr(l@),
            ResultMessage::Exit(c) => MessageView::Exit(*c),
        }
    }
}

impl ResultMessage {
    /// The tag that this message carries on the wire.
    pub open spec fn spec_output_type(&self) -> OutputType {
        match self {
            ResultMessage::Stdout(_) => OutputType::Stdout,
            ResultMessage::Stderr(_) => OutputType::Stderr,
            ResultMessage::Exit(_) => OutputType::Exit,
        }
    }

    pub fn output_type(&self) -> (r: OutputType)
        ensures
            r == self.spec_output_type(),
    {
        match self {
            ResultMessage::Stdout(_) => OutputType::Stdout,
            ResultMessage::Stderr(_) => OutputType::Stderr,
            ResultMessage::Exit(_) => OutputType::Exit,
        }
    }

    /// The wire record of this message. An exit record carries an empty
    /// line.
    pub fn to_stream_line(&self) -> (r: StreamLine)
        ensures
            r.output_type == self.spec_output_type(),
            r.is_final == (self is Exit),
            r.exit_code == (match self {
                ResultMessage::Exit(c) => Some(*c),
                _ => None::<i32>,
            }),
            r.line@ == (match self {
                ResultMessage::Stdout(l) => l@,
                ResultMessage::Stderr(l) => l@,
                ResultMessage::Exit(_) => Seq::<char>::empty(),
            }),
            r.well_formed(),
            r.spec_message() == Some(self@),
    {
        match self {
            ResultMessage::Stdout(l) => StreamLine {
                line: l.clone(),
                output_type: OutputType::Stdout,
                is_final: false,
                exit_code: None,
            },
            ResultMessage::Stderr(l) => StreamLine {
                line: l.clone(),
                output_type: OutputType::Stderr,
                is_final: false,
                exit_code: None,
            },
            ResultMessage::Exit(c) => StreamLine {
                line: String::new(),
                output_type: OutputType::Exit,
                is_final: true,
                exit_code: Some(*c),
            },
        }
    }
}

impl StreamLine {
    /// A record is well formed when it carries an exit code exactly if it is
    /// tagged `Exit`, and is marked final exactly then.
    pub open spec fn well_formed(&self) -> bool {
        &&& (self.output_type == OutputType::Exit) == self.exit_code.is_some()
        &&& self.is_final == (self.output_type == OutputType::Exit)
    }

    /// The message a record stands for. The exit code and the tag must agree;
    /// `is_final` is informative only, so that peers that mark it otherwise
    /// are still understood.
    pub open spec fn spec_message(&self) -> Option<MessageView> {
        match self.output_type {
            OutputType::Stdout => if self.exit_code.is_none() {
                Some(MessageView::Stdout(self.line@))
            } else {
                None
            },
            OutputType::Stderr => if self.exit_code.is_none() {
                Some(MessageView::Stderr(self.line@))
            } else {
                None
            },
            OutputType::Exit => match self.exit_code {
                Some(c) => Some(MessageView::Exit(c)),
                None => None,
            },
        }
    }

    /// The message this record stands for, or `None` for a record whose tag
    /// and exit code disagree.
    pub fn to_message(&self) -> (r: Option<ResultMessage>)
        ensures
            r.is_some() == self.spec_message().is_some(),
            r.is_some() ==> r.unwrap()@ == self.spec_message().unwrap(),
            self.well_formed() ==> r.is_some(),
    {
        match self.output_type {
            OutputType::Stdout => if self.exit_code.is_none() {
                Some(ResultMessage::Stdout(self.line.clone()))
            } else {
                None
            },
            OutputType::Stderr => if self.exit_code.is_none() {
                Some(ResultMessage::Stderr(self.line.clone()))
            } else {
                None
            },
            OutputType::Exit => match self.exit_code {
                Some(c) => Some(ResultMessage::Exit(c)),
                None => None,
            },
        }
    }
}

} // verus!
