//! Commands of the task store, as values.
//!
//! The library starts no process. It says which program is to run,
//! with which arguments, what it is fed and how it is waited for; the
//! caller runs it and hands back what came out.

use vstd::prelude::*;
use crate::error::Error;
use crate::text::{decimal, decimal_text, texts_view};

verus! {

/// How a command is run.
#[derive(Clone, Copy, Debug, PartialEq, Eq, Structural)]
pub enum Mode {
    /// It is waited for, and what it writes is read.
    Output,
    /// It is waited for; only whether it started counts.
    Status,
    /// It is fed the input, then waited for; what it writes is dropped.
    Input,
    /// It is started apart from this process's own streams and not
    /// waited for.
    Detached,
}

/// One command to run.
#[derive(Debug, PartialEq, Eq)]
pub struct Call {
    /// The program.
    pub program: String,
    /// Its arguments, in order.
    pub args: Vec<String>,
    /// How it is run.
    pub mode: Mode,
    /// What it is fed, for `Mode::Input`; empty otherwise.
    pub input: Vec<u8>,
    /// The variables that are taken out of its environment.
    pub unset: Vec<String>,
}

/// What a `Call` is, in contracts.
pub struct CallView {
    pub program: Seq<char>,
    pub args: Seq<Seq<char>>,
    pub mode: Mode,
    pub input: Seq<u8>,
    pub unset: Seq<Seq<char>>,
}

impl View for Call {
    type V = CallView;

    open spec fn view(&self) -> CallView {
        CallView {
            program: self.program@,
            args: texts_view(self.args@),
            mode: self.mode,
            input: self.input@,
            unset: texts_view(self.unset@),
        }
    }
}

/// The command that exports tasks: all of them, or the one of a number.
pub open spec fn export_call(id: Option<u16>) -> CallView {
    CallView {
        program: "task"@,
        args: match id {
            Some(id) => seq![decimal_text(id as nat), "export"@],
            None => seq!["export"@],
        },
        mode: Mode::Output,
        input: Seq::empty(),
        unset: Seq::empty(),
    }
}

/// The command that adds a task with a description.
pub open spec fn add_call(name: Seq<char>) -> CallView {
    CallView {
        program: "task"@,
        args: seq!["add"@, name],
        mode: Mode::Status,
        input: Seq::empty(),
        unset: Seq::empty(),
    }
}

/// The command that takes in one whole record. It runs without the
/// variable that names a configuration of the task store.
pub open spec fn import_call(record: Seq<u8>) -> CallView {
    CallView {
        program: "task"@,
        args: seq!["import"@],
        mode: Mode::Input,
        input: record,
        unset: seq!["TASKRC"@],
    }
}

/// The command that opens a task in an editor, in a terminal of its own.
pub open spec fn edit_call(id: u16) -> CallView {
    CallView {
        program: "rofi-sensible-terminal"@,
        args: seq!["-e"@, "task"@, "edit"@, decimal_text(id as nat)],
        mode: Mode::Detached,
        input: Seq::empty(),
        unset: Seq::empty(),
    }
}

/// Whether a command did what it was run for. One that could not be
/// started did not. One that is not waited for did, once it was
/// started; any other did where it ended with the exit code 0.
pub open spec fn succeeded(mode: Mode, started: bool, code: Option<i32>) -> bool {
    started && (mode == Mode::Detached || code == Some(0i32))
}

impl Mode {
    /// Says whether a command that was run in this mode did what it
    /// was run for, by whether it could be started and by the exit code
    /// it ended with, if it ended with one. Where it did not, that is
    /// `Error::ExternalTool`.
    pub fn outcome(self, started: bool, code: Option<i32>) -> (r: Result<(), Error>)
        ensures
            r == if succeeded(self, started, code) {
                Ok::<(), Error>(())
            } else {
                Err(Error::ExternalTool)
            },
    {
        if !started {
            return Err(Error::ExternalTool);
        }
        match self {
            Mode::Detached => Ok(()),
            _ => match code {
                Some(0) => Ok(()),
                _ => Err(Error::ExternalTool),
            },
        }
    }
}

impl Call {
    /// The command that exports tasks: all of them, or the one of a
    /// number.
    pub fn export(id: Option<u16>) -> (call: Call)
        ensures
            call@ == export_call(id),
    {
        let mut args: Vec<String> = Vec::new();
        if let Some(id) = id {
            args.push(decimal(id as u64));
        }
        args.push("export".to_owned());
        let call = Call {
            program: "task".to_owned(),
            args,
            mode: Mode::Output,
            input: Vec::new(),
            unset: Vec::new(),
        };
        assert(call@.args =~= export_call(id).args);
        assert(call@.unset =~= export_call(id).unset);
        call
    }

    /// The command that adds a task with a description.
    pub fn add(name: String) -> (call: Call)
        ensures
            call@ == add_call(name@),
    {
        let mut args: Vec<String> = Vec::new();
        args.push("add".to_owned());
        args.push(name);
        let call = Call {
            program: "task".to_owned(),
            args,
            mode: Mode::Status,
            input: Vec::new(),
            unset: Vec::new(),
        };
        assert(call@.args =~= add_call(name@).args);
        assert(call@.unset =~= add_call(name@).unset);
        call
    }

    /// The command that takes in one whole record.
    pub fn import(record: Vec<u8>) -> (call: Call)
        ensures
            call@ == import_call(record@),
    {
        let mut args: Vec<String> = Vec::new();
        args.push("import".to_owned());
        let mut unset: Vec<String> = Vec::new();
        unset.push("TASKRC".to_owned());
        let call = Call { program: "task".to_owned(), args, mode: Mode::Input, input: record, unset };
        assert(call@.args =~= import_call(record@).args);
        assert(call@.unset =~= import_call(record@).unset);
        call
    }

    /// The command that opens a task in an editor.
    pub fn edit(id: u16) -> (call: Call)
        ensures
            call@ == edit_call(id),
    {
        let mut args: Vec<String> = Vec::new();
        args.push("-e".to_owned());
        args.push("task".to_owned());
        args.push("edit".to_owned());
        args.push(decimal(id as u64));
        let call = Call {
            program: "rofi-sensible-terminal".to_owned(),
            args,
            mode: Mode::Detached,
            input: Vec::new(),
            unset: Vec::new(),
        };
        assert(call@.args =~= edit_call(id).args);
        assert(call@.unset =~= edit_call(id).unset);
        call
    }
}

} // verus!
