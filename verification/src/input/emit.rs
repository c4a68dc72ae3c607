//! The emitter surface of the handle: each report goes to the input's emitter on its own
//! channel, and a fatal emitter's rejection comes back as the report's `Err`.
use vstd::prelude::*;
use crate::emitter::{Channel, Emission, error_outcome};
use crate::span::{SimpleSpan, Spanned};
use super::{InputModel, InputRef};

verus! {

impl<'a, E> InputRef<'a, E> {
    /// Reports a lexer error.
    pub fn emit_lexer_error(&mut self, err: Spanned<E>) -> (r: Result<(), E>)
        ensures
            final(self).wf() == old(self).wf(),
            final(self).open_points() == old(self).open_points(),
            final(self).model() == old(self).model().offered(
                Emission::Error { channel: Channel::Lexer, span: err.span, error: err.data },
            ),
            r == error_outcome(old(self).model().emitter.mode, err.data),
    {
        self.input.emitter.emit_on(Channel::Lexer, err)
    }

    /// Reports an unexpected token.
    pub fn emit_unexpected_token(&mut self, err: Spanned<E>) -> (r: Result<(), E>)
        ensures
            final(self).wf() == old(self).wf(),
            final(self).open_points() == old(self).open_points(),
            final(self).model() == old(self).model().offered(
                Emission::Error { channel: Channel::UnexpectedToken, span: err.span, error: err.data },
            ),
            r == error_outcome(old(self).model().emitter.mode, err.data),
    {
        self.input.emitter.emit_on(Channel::UnexpectedToken, err)
    }

    /// Reports an application error.
    pub fn emit_error(&mut self, err: Spanned<E>) -> (r: Result<(), E>)
        ensures
            final(self).wf() == old(self).wf(),
            final(self).open_points() == old(self).open_points(),
            final(self).model() == old(self).model().offered(
                Emission::Error { channel: Channel::Error, span: err.span, error: err.data },
            ),
            r == error_outcome(old(self).model().emitter.mode, err.data),
    {
        self.input.emitter.emit_on(Channel::Error, err)
    }

    /// Reports too few elements in a collection.
    pub fn emit_too_few(&mut self, err: Spanned<E>) -> (r: Result<(), E>)
        ensures
            final(self).wf() == old(self).wf(),
            final(self).open_points() == old(self).open_points(),
            final(self).model() == old(self).model().offered(
                Emission::Error { channel: Channel::TooFew, span: err.span, error: err.data },
            ),
            r == error_outcome(old(self).model().emitter.mode, err.data),
    {
        self.input.emitter.emit_on(Channel::TooFew, err)
    }

    /// Reports too many elements in a collection.
    pub fn emit_too_many(&mut self, err: Spanned<E>) -> (r: Result<(), E>)
        ensures
            final(self).wf() == old(self).wf(),
            final(self).open_points() == old(self).open_points(),
            final(self).model() == old(self).model().offered(
                Emission::Error { channel: Channel::TooMany, span: err.span, error: err.data },
            ),
            r == error_outcome(old(self).model().emitter.mode, err.data),
    {
        self.input.emitter.emit_on(Channel::TooMany, err)
    }

    /// Reports an element that did not fit a full container.
    pub fn emit_full_container(&mut self, err: Spanned<E>) -> (r: Result<(), E>)
        ensures
            final(self).wf() == old(self).wf(),
            final(self).open_points() == old(self).open_points(),
            final(self).model() == old(self).model().offered(
                Emission::Error { channel: Channel::FullContainer, span: err.span, error: err.data },
            ),
            r == error_outcome(old(self).model().emitter.mode, err.data),
    {
        self.input.emitter.emit_on(Channel::FullContainer, err)
    }

    /// Reports a missing element.
    pub fn emit_missing_element(&mut self, err: Spanned<E>) -> (r: Result<(), E>)
        ensures
            final(self).wf() == old(self).wf(),
            final(self).open_points() == old(self).open_points(),
            final(self).model() == old(self).model().offered(
                Emission::Error { channel: Channel::MissingElement, span: err.span, error: err.data },
            ),
            r == error_outcome(old(self).model().emitter.mode, err.data),
    {
        self.input.emitter.emit_on(Channel::MissingElement, err)
    }

    /// Reports an unclosed delimiter.
    pub fn emit_unclosed(&mut self, err: Spanned<E>) -> (r: Result<(), E>)
        ensures
            final(self).wf() == old(self).wf(),
            final(self).open_points() == old(self).open_points(),
            final(self).model() == old(self).model().offered(
                Emission::Error { channel: Channel::Unclosed, span: err.span, error: err.data },
            ),
            r == error_outcome(old(self).model().emitter.mode, err.data),
    {
        self.input.emitter.emit_on(Channel::Unclosed, err)
    }

    /// Reports an operator with no left operand.
    pub fn emit_unexpected_end_of_lhs(&mut self, err: Spanned<E>) -> (r: Result<(), E>)
        ensures
            final(self).wf() == old(self).wf(),
            final(self).open_points() == old(self).open_points(),
            final(self).model() == old(self).model().offered(
                Emission::Error { channel: Channel::UnexpectedEndOfLhs, span: err.span, error: err.data },
            ),
            r == error_outcome(old(self).model().emitter.mode, err.data),
    {
        self.input.emitter.emit_on(Channel::UnexpectedEndOfLhs, err)
    }

    /// Reports an operator with no right operand.
    pub fn emit_unexpected_end_of_rhs(&mut self, err: Spanned<E>) -> (r: Result<(), E>)
        ensures
            final(self).wf() == old(self).wf(),
            final(self).open_points() == old(self).open_points(),
            final(self).model() == old(self).model().offered(
                Emission::Error { channel: Channel::UnexpectedEndOfRhs, span: err.span, error: err.data },
            ),
            r == error_outcome(old(self).model().emitter.mode, err.data),
    {
        self.input.emitter.emit_on(Channel::UnexpectedEndOfRhs, err)
    }

    /// Reports a missing separator in the construct `name`.
    pub fn emit_missing_separator(&mut self, name: &'static str, err: Spanned<E>) -> (r: Result<(), E>)
        ensures
            final(self).wf() == old(self).wf(),
            final(self).open_points() == old(self).open_points(),
            final(self).model() == old(self).model().offered(
                Emission::NamedError { channel: Channel::MissingSeparator, name, span: err.span, error: err.data },
            ),
            r == error_outcome(old(self).model().emitter.mode, err.data),
    {
        self.input.emitter.emit_named(Channel::MissingSeparator, name, err)
    }

    /// Reports a missing leading separator in the construct `name`.
    pub fn emit_missing_leading_separator(&mut self, name: &'static str, err: Spanned<E>) -> (r: Result<(), E>)
        ensures
            final(self).wf() == old(self).wf(),
            final(self).open_points() == old(self).open_points(),
            final(self).model() == old(self).model().offered(
                Emission::NamedError { channel: Channel::MissingLeadingSeparator, name, span: err.span, error: err.data },
            ),
            r == error_outcome(old(self).model().emitter.mode, err.data),
    {
        self.input.emitter.emit_named(Channel::MissingLeadingSeparator, name, err)
    }

    /// Reports a missing trailing separator in the construct `name`.
    pub fn emit_missing_trailing_separator(&mut self, name: &'static str, err: Spanned<E>) -> (r: Result<(), E>)
        ensures
            final(self).wf() == old(self).wf(),
            final(self).open_points() == old(self).open_points(),
            final(self).model() == old(self).model().offered(
                Emission::NamedError { channel: Channel::MissingTrailingSeparator, name, span: err.span, error: err.data },
            ),
            r == error_outcome(old(self).model().emitter.mode, err.data),
    {
        self.input.emitter.emit_named(Channel::MissingTrailingSeparator, name, err)
    }

    /// Reports an unexpected leading separator in the construct `name`.
    pub fn emit_unexpected_leading_separator(&mut self, name: &'static str, err: Spanned<E>) -> (r: Result<(), E>)
        ensures
            final(self).wf() == old(self).wf(),
            final(self).open_points() == old(self).open_points(),
            final(self).model() == old(self).model().offered(
                Emission::NamedError { channel: Channel::UnexpectedLeadingSeparator, name, span: err.span, error: err.data },
            ),
            r == error_outcome(old(self).model().emitter.mode, err.data),
    {
        self.input.emitter.emit_named(Channel::UnexpectedLeadingSeparator, name, err)
    }

    /// Reports an unexpected trailing separator in the construct `name`.
    pub fn emit_unexpected_trailing_separator(&mut self, name: &'static str, err: Spanned<E>) -> (r: Result<(), E>)
        ensures
            final(self).wf() == old(self).wf(),
            final(self).open_points() == old(self).open_points(),
            final(self).model() == old(self).model().offered(
                Emission::NamedError { channel: Channel::UnexpectedTrailingSeparator, name, span: err.span, error: err.data },
            ),
            r == error_outcome(old(self).model().emitter.mode, err.data),
    {
        self.input.emitter.emit_named(Channel::UnexpectedTrailingSeparator, name, err)
    }

    /// Reports a warning; a warning is never a failure.
    pub fn emit_warning(&mut self, warning: Spanned<E>) -> (r: Result<(), E>)
        ensures
            final(self).wf() == old(self).wf(),
            final(self).open_points() == old(self).open_points(),
            final(self).model() == old(self).model().offered(
                Emission::Warning { span: warning.span, warning: warning.data },
            ),
            r is Ok,
    {
        self.input.emitter.emit_warning(warning);
        Ok(())
    }

    /// Reports a region of `skipped` tokens that recovery passed over.
    pub fn emit_skipped_region(&mut self, span: SimpleSpan, skipped: usize) -> (r: Result<(), E>)
        ensures
            final(self).wf() == old(self).wf(),
            final(self).open_points() == old(self).open_points(),
            final(self).model() == old(self).model().offered(Emission::SkippedRegion { span, skipped }),
            r is Ok,
    {
        self.input.emitter.record(Emission::SkippedRegion { span, skipped });
        Ok(())
    }

    /// Enters a diagnostic label.
    pub fn enter_label(&mut self, label: &'static str)
        ensures
            final(self).wf() == old(self).wf(),
            final(self).open_points() == old(self).open_points(),
            final(self).model() == old(self).model().offered(Emission::EnterLabel { label }),
    {
        self.input.emitter.record(Emission::EnterLabel { label });
    }

    /// Leaves the innermost diagnostic label.
    pub fn exit_label(&mut self)
        ensures
            final(self).wf() == old(self).wf(),
            final(self).open_points() == old(self).open_points(),
            final(self).model() == old(self).model().offered(Emission::ExitLabel),
    {
        self.input.emitter.record(Emission::ExitLabel);
    }

    /// The identity of the source the emitter is bound to, if any.
    pub fn emitter_bound_source(&self) -> (r: Option<u64>)
        ensures
            r == self.model().emitter.source,
    {
        self.input.emitter.bound_source()
    }

    /// Opens a syntax node of `kind`.
    pub fn cst_start(&mut self, kind: u16)
        ensures
            final(self).wf() == old(self).wf(),
            final(self).open_points() == old(self).open_points(),
            final(self).model() == old(self).model().offered(Emission::CstStart { kind }),
    {
        self.input.emitter.record(Emission::CstStart { kind });
    }

    /// Closes the innermost syntax node, of `kind`.
    pub fn cst_finish(&mut self, kind: u16)
        ensures
            final(self).wf() == old(self).wf(),
            final(self).open_points() == old(self).open_points(),
            final(self).model() == old(self).model().offered(Emission::CstFinish { kind }),
    {
        self.input.emitter.record(Emission::CstFinish { kind });
    }

    /// A mark at the current end of the emission log, for opening a node retroactively there.
    pub fn cst_mark(&self) -> (r: u64)
        ensures
            r == self.model().emitter.log.len(),
    {
        self.input.emitter.checkpoint()
    }

    /// Opens a syntax node of `kind` retroactively at `mark`.
    pub fn cst_start_at(&mut self, mark: u64, kind: u16)
        ensures
            final(self).wf() == old(self).wf(),
            final(self).open_points() == old(self).open_points(),
            final(self).model() == old(self).model().offered(Emission::CstStartAt { mark, kind }),
    {
        self.input.emitter.record(Emission::CstStartAt { mark, kind });
    }
}

} // verus!
