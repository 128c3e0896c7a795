//! Structured diagnostics. The core never performs output; it collects
//! diagnostics in a buffering logger, and where they go from there is the
//! caller's business.
use vstd::prelude::*;
use crate::error_messages::{
    spec_coerce_error_msg, spec_failed_to_parse_msg, spec_missing_property_msg,
    spec_no_entity_found_msg,
};

verus! {

/// Severity of logged data.
#[derive(PartialEq, Eq, Structural, Clone, Copy, Debug)]
pub enum LogLevel {
    /// Routine and inconsequential.
    Debug,
    /// Routine but important.
    Info,
    /// Unexpected but acceptable.
    Warning,
    /// Potentially fatal.
    Error,
    /// Unrecoverable.
    Fatal,
}

/// Specification-level mirror of [`Diagnostic`].
#[verifier::ext_equal]
pub struct DiagV {
    pub level: LogLevel,
    pub message: Seq<char>,
}

/// One structured diagnostic: a severity and a message.
pub struct Diagnostic {
    pub level: LogLevel,
    pub message: String,
}

impl View for Diagnostic {
    type V = DiagV;

    open spec fn view(&self) -> DiagV {
        DiagV { level: self.level, message: self.message@ }
    }
}

/// The view of a list of diagnostics.
pub open spec fn diags_view(s: Seq<Diagnostic>) -> Seq<DiagV> {
    s.map_values(|d: Diagnostic| d@)
}

/// Anything that records diagnostics.
pub trait ILogger: Sized {
    /// The diagnostics recorded so far, oldest first.
    spec fn entries(&self) -> Seq<DiagV>;

    /// Records `message` at `level`.
    fn log(&mut self, level: LogLevel, message: String)
        ensures
            final(self).entries() == old(self).entries().push(
                DiagV { level, message: message@ },
            ),
    ;

    /// Records `message` at `level`.
    fn log_str(&mut self, level: LogLevel, message: &str)
        ensures
            final(self).entries() == old(self).entries().push(
                DiagV { level, message: message@ },
            ),
    ;

    /// Records that a recognized field's value had the wrong shape, and
    /// returns the failure the caller passes on.
    fn coerce_error(&mut self, from: &str, to: &str) -> (r: Result<(), ()>)
        ensures
            r is Err,
            final(self).entries() == old(self).entries().push(
                DiagV { level: LogLevel::Error, message: spec_coerce_error_msg(from@, to@) },
            ),
    ;

    /// Records that a required field was never set.
    fn missing_property_error(&mut self, object_type: &str, property: &str) -> (r: Result<
        (),
        (),
    >)
        ensures
            r is Err,
            final(self).entries() == old(self).entries().push(
                DiagV {
                    level: LogLevel::Error,
                    message: spec_missing_property_msg(object_type@, property@),
                },
            ),
    ;

    /// Records that a source held no entity of the expected kind.
    fn no_entity_found(&mut self, entity: &str, path: &str) -> (r: Result<(), ()>)
        ensures
            r is Ok,
            final(self).entries() == old(self).entries().push(
                DiagV {
                    level: LogLevel::Warning,
                    message: spec_no_entity_found_msg(entity@, path@),
                },
            ),
    ;

    /// Records that a source could not be parsed at all.
    fn failed_to_parse(&mut self, path: &str) -> (r: Result<(), ()>)
        ensures
            r is Ok,
            final(self).entries() == old(self).entries().push(
                DiagV { level: LogLevel::Warning, message: spec_failed_to_parse_msg(path@) },
            ),
    ;
}

/// The buffering logger the library uses: diagnostics pile up in order
/// and can be taken out at the end.
pub struct Logger {
    pub entries: Vec<Diagnostic>,
}

impl Logger {
    /// A logger with no entries.
    pub fn new() -> (r: Logger)
        ensures
            r.entries() == Seq::<DiagV>::empty(),
    {
        let r = Logger { entries: Vec::new() };
        proof {
            assert(diags_view(r.entries@) =~= Seq::<DiagV>::empty());
        }
        r
    }

    /// A fresh logger on the heap.
    pub fn new_boxed() -> (r: Box<Logger>)
        ensures
            r.entries() == Seq::<DiagV>::empty(),
    {
        Box::new(Logger::new())
    }

    /// Hands the recorded diagnostics out, oldest first.
    pub fn take_entries(self) -> (r: Vec<Diagnostic>)
        ensures
            diags_view(r@) == self.entries(),
    {
        self.entries
    }
}

impl ILogger for Logger {
    open spec fn entries(&self) -> Seq<DiagV> {
        diags_view(self.entries@)
    }

    fn log(&mut self, level: LogLevel, message: String) {
        self.entries.push(Diagnostic { level, message });
        proof {
            assert(diags_view(self.entries@) =~= diags_view(old(self).entries@).push(
                DiagV { level, message: message@ },
            ));
        }
    }

    fn log_str(&mut self, level: LogLevel, message: &str) {
        let owned = message.to_owned();
        self.entries.push(Diagnostic { level, message: owned });
        proof {
            assert(diags_view(self.entries@) =~= diags_view(old(self).entries@).push(
                DiagV { level, message: message@ },
            ));
        }
    }

    fn coerce_error(&mut self, from: &str, to: &str) -> (r: Result<(), ()>) {
        let mut msg = String::from_str("Failed to coerce `");
        msg.append(from);
        msg.append("` to `");
        msg.append(to);
        msg.append("`");
        self.log(LogLevel::Error, msg);
        Err(())
    }

    fn missing_property_error(&mut self, object_type: &str, property: &str) -> (r: Result<
        (),
        (),
    >) {
        let mut msg = String::from_str("`");
        msg.append(object_type);
        msg.append("` is missing property `");
        msg.append(property);
        msg.append("`");
        self.log(LogLevel::Error, msg);
        Err(())
    }

    fn no_entity_found(&mut self, entity: &str, path: &str) -> (r: Result<(), ()>) {
        let mut msg = String::from_str("No `");
        msg.append(entity);
        msg.append("` found in ");
        msg.append(path);
        self.log(LogLevel::Warning, msg);
        Ok(())
    }

    fn failed_to_parse(&mut self, path: &str) -> (r: Result<(), ()>) {
        let mut msg = String::from_str("Failed to parse `");
        msg.append(path);
        msg.append("`");
        self.log(LogLevel::Warning, msg);
        Ok(())
    }
}

} // verus!
