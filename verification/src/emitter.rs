//! The emitter: where a parse's diagnostics and structure events go. A [`Verbose`] emitter
//! records everything in order, a [`Fatal`] one turns the first error into the parse's `Err`, and
//! a [`Silent`] one drops everything. The emission log is ground truth: a rollback truncates it to
//! the mark a checkpoint took.
//!
//! [`Verbose`]: EmitterMode::Verbose
//! [`Fatal`]: EmitterMode::Fatal
//! [`Silent`]: EmitterMode::Silent
use vstd::prelude::*;
use crate::span::{SimpleSpan, Spanned};

verus! {

/// What an emitter does with what it is told.
#[derive(Debug, Clone, Copy, PartialEq, Eq, Hash, Structural)]
pub enum EmitterMode {
    /// Errors become the parse's `Err`; nothing is recorded.
    Fatal,
    /// Everything is recorded, in order, and nothing fails.
    Verbose,
    /// Nothing is recorded and nothing fails.
    Silent,
}

/// The capability channel an error was reported on.
#[derive(Debug, Clone, Copy, PartialEq, Eq, Hash, Structural)]
pub enum Channel {
    Lexer,
    UnexpectedToken,
    Error,
    TooFew,
    TooMany,
    FullContainer,
    MissingSeparator,
    MissingElement,
    MissingLeadingSeparator,
    MissingTrailingSeparator,
    UnexpectedLeadingSeparator,
    UnexpectedTrailingSeparator,
    Unclosed,
    UnexpectedEndOfLhs,
    UnexpectedEndOfRhs,
}

/// One recorded emission.
#[derive(Debug, Clone, PartialEq, Eq)]
pub enum Emission<E> {
    /// An error, on its channel.
    Error { channel: Channel, span: SimpleSpan, error: E },
    /// An error about a named construct (a separator), on its channel.
    NamedError { channel: Channel, name: &'static str, span: SimpleSpan, error: E },
    /// A warning.
    Warning { span: SimpleSpan, warning: E },
    /// A region of `skipped` tokens recovery passed over.
    SkippedRegion { span: SimpleSpan, skipped: usize },
    /// A diagnostic label entered.
    EnterLabel { label: &'static str },
    /// The innermost diagnostic label left.
    ExitLabel,
    /// A syntax node of `kind` opened.
    CstStart { kind: u16 },
    /// A syntax node of `kind` closed.
    CstFinish { kind: u16 },
    /// A syntax node of `kind` opened retroactively at an earlier mark.
    CstStartAt { mark: u64, kind: u16 },
}

/// The mathematical value of an [`Emitter`].
pub struct EmitterModel<E> {
    pub mode: EmitterMode,
    pub log: Seq<Emission<E>>,
    /// The identity of the source the emitter is bound to, if any.
    pub source: Option<u64>,
}

impl<E> EmitterModel<E> {
    /// The log after `em` was offered: appended by a verbose emitter, dropped by the others.
    pub open spec fn offered(self, em: Emission<E>) -> EmitterModel<E> {
        EmitterModel {
            mode: self.mode,
            log: if self.mode == EmitterMode::Verbose { self.log.push(em) } else { self.log },
            source: self.source,
        }
    }

    /// The log after a rewind to `mark`: truncated to it.
    pub open spec fn rewound(self, mark: u64) -> EmitterModel<E> {
        EmitterModel {
            mode: self.mode,
            log: if mark <= self.log.len() { self.log.take(mark as int) } else { self.log },
            source: self.source,
        }
    }
}

/// The answer an error emission owes: a fatal emitter fails with the error, the others go on.
pub open spec fn error_outcome<E>(mode: EmitterMode, error: E) -> Result<(), E> {
    if mode == EmitterMode::Fatal { Err(error) } else { Ok(()) }
}

/// A parse's emitter.
pub struct Emitter<E> {
    mode: EmitterMode,
    log: Vec<Emission<E>>,
    source: Option<u64>,
}

impl<E> View for Emitter<E> {
    type V = EmitterModel<E>;

    closed spec fn view(&self) -> EmitterModel<E> {
        EmitterModel { mode: self.mode, log: self.log@, source: self.source }
    }
}

impl<E> Emitter<E> {
    /// An emitter of the given mode with an empty log.
    pub fn new(mode: EmitterMode) -> (r: Self)
        ensures
            r@.mode == mode,
            r@.log == Seq::<Emission<E>>::empty(),
            r@.source is None,
    {
        Emitter { mode, log: Vec::new(), source: None }
    }

    /// An emitter of the given mode bound to the source identified by `source`.
    pub fn bound_to(mode: EmitterMode, source: u64) -> (r: Self)
        ensures
            r@.mode == mode,
            r@.log == Seq::<Emission<E>>::empty(),
            r@.source == Some(source),
    {
        Emitter { mode, log: Vec::new(), source: Some(source) }
    }

    /// The identity of the source the emitter is bound to, if any.
    pub fn bound_source(&self) -> (r: Option<u64>)
        ensures
            r == self@.source,
    {
        self.source
    }

    /// A fail-fast emitter.
    pub fn fatal() -> (r: Self)
        ensures
            r@.mode == EmitterMode::Fatal,
            r@.log == Seq::<Emission<E>>::empty(),
            r@.source is None,
    {
        Self::new(EmitterMode::Fatal)
    }

    /// A collecting emitter.
    pub fn verbose() -> (r: Self)
        ensures
            r@.mode == EmitterMode::Verbose,
            r@.log == Seq::<Emission<E>>::empty(),
            r@.source is None,
    {
        Self::new(EmitterMode::Verbose)
    }

    /// An emitter that drops everything.
    pub fn silent() -> (r: Self)
        ensures
            r@.mode == EmitterMode::Silent,
            r@.log == Seq::<Emission<E>>::empty(),
            r@.source is None,
    {
        Self::new(EmitterMode::Silent)
    }

    /// The mode.
    pub fn mode(&self) -> (r: EmitterMode)
        ensures
            r == self@.mode,
    {
        self.mode
    }

    /// The recorded emissions, oldest first.
    pub fn log(&self) -> (r: &Vec<Emission<E>>)
        ensures
            r@ == self@.log,
    {
        &self.log
    }

    /// The number of recorded emissions.
    pub fn len(&self) -> (r: usize)
        ensures
            r == self@.log.len(),
    {
        self.log.len()
    }

    /// Offers a non-error emission: recorded by a verbose emitter.
    pub fn record(&mut self, em: Emission<E>)
        ensures
            final(self)@ == old(self)@.offered(em),
    {
        if self.mode == EmitterMode::Verbose {
            self.log.push(em);
        }
    }

    /// Reports an error on `channel`: a fatal emitter fails with it, a verbose one records it.
    pub fn emit_on(&mut self, channel: Channel, err: Spanned<E>) -> (r: Result<(), E>)
        ensures
            final(self)@ == old(self)@.offered(
                Emission::Error { channel, span: err.span, error: err.data },
            ),
            r == error_outcome(old(self)@.mode, err.data),
    {
        let Spanned { span, data } = err;
        match self.mode {
            EmitterMode::Fatal => Err(data),
            EmitterMode::Verbose => {
                self.log.push(Emission::Error { channel, span, error: data });
                Ok(())
            },
            EmitterMode::Silent => Ok(()),
        }
    }

    /// Reports an error about the construct `name` on `channel`.
    pub fn emit_named(&mut self, channel: Channel, name: &'static str, err: Spanned<E>) -> (r:
        Result<(), E>)
        ensures
            final(self)@ == old(self)@.offered(
                Emission::NamedError { channel, name, span: err.span, error: err.data },
            ),
            r == error_outcome(old(self)@.mode, err.data),
    {
        let Spanned { span, data } = err;
        match self.mode {
            EmitterMode::Fatal => Err(data),
            EmitterMode::Verbose => {
                self.log.push(Emission::NamedError { channel, name, span, error: data });
                Ok(())
            },
            EmitterMode::Silent => Ok(()),
        }
    }

    /// Reports a warning: recorded by a verbose emitter, never a failure.
    pub fn emit_warning(&mut self, warning: Spanned<E>)
        ensures
            final(self)@ == old(self)@.offered(
                Emission::Warning { span: warning.span, warning: warning.data },
            ),
    {
        let Spanned { span, data } = warning;
        self.record(Emission::Warning { span, warning: data });
    }

    /// A mark at the current end of the log.
    pub fn checkpoint(&self) -> (r: u64)
        ensures
            r == self@.log.len(),
    {
        self.log.len() as u64
    }

    /// Truncates the log to `mark`, dropping everything emitted after it.
    pub fn rewind(&mut self, mark: u64)
        ensures
            final(self)@ == old(self)@.rewound(mark),
    {
        if mark <= self.log.len() as u64 {
            self.log.truncate(mark as usize);
        }
    }

    /// Releases a mark whose checkpoint was kept. Nothing is retained per mark, so this changes
    /// nothing.
    pub fn release(&mut self, mark: u64)
        ensures
            final(self)@ == old(self)@,
    {
    }
}

} // verus!
