//! `[[hook]]` tables.

use crate::text::around;
use crate::text::opt_view;
use crate::text::put_around;
use crate::text::same_text;
use vstd::prelude::*;

verus! {

/// When a hook runs.
#[derive(Debug, Clone, Copy, PartialEq, Eq, Structural)]
pub enum HookEvent {
    /// Before any file operation of the plan.
    PreApply,
    /// After every file operation of the plan.
    PostApply,
}

/// A validated hook.
#[derive(Debug, Clone, PartialEq, Eq)]
pub struct HookEntry {
    /// When it runs.
    pub event: HookEvent,
    /// The command for the shell.
    pub command: String,
    /// The shell; without one, that of the platform.
    pub shell: Option<String>,
    /// The condition under which it runs, not evaluated yet.
    pub when: Option<String>,
    /// Whether its failure fails the apply.
    pub must_succeed: bool,
}

/// A hook with its texts as sequences of characters.
#[verifier::ext_equal]
pub ghost struct HookModel {
    /// When it runs.
    pub event: HookEvent,
    /// The command for the shell.
    pub command: Seq<char>,
    /// The shell.
    pub shell: Option<Seq<char>>,
    /// The condition under which it runs.
    pub when: Option<Seq<char>>,
    /// Whether its failure fails the apply.
    pub must_succeed: bool,
}

impl View for HookEntry {
    type V = HookModel;

    open spec fn view(&self) -> HookModel {
        HookModel {
            event: self.event,
            command: self.command@,
            shell: opt_view(self.shell),
            when: opt_view(self.when),
            must_succeed: self.must_succeed,
        }
    }
}

/// Errors in `[[hook]]` tables.
#[derive(Debug, Clone, PartialEq, Eq)]
#[non_exhaustive]
pub enum HookEntryError {
    /// The event is none of the two.
    UnsupportedEvent {
        /// The event.
        value: String,
    },
}

impl HookEntryError {
    /// The error in words.
    pub open spec fn words(self) -> Seq<char> {
        match self {
            HookEntryError::UnsupportedEvent { value } => around(
                "[[hook]] entry declares unsupported event `"@,
                value@,
                "`; the accepted values are `pre_apply` and `post_apply`"@,
            ),
        }
    }

    /// The error in words.
    pub fn message(&self) -> (r: String)
        ensures
            r@ == self.words(),
    {
        match self {
            HookEntryError::UnsupportedEvent { value } => put_around(
                "[[hook]] entry declares unsupported event `",
                value.as_str(),
                "`; the accepted values are `pre_apply` and `post_apply`",
            ),
        }
    }
}

/// A `[[hook]]` table as it was written.
#[derive(Debug, Clone, PartialEq, Eq)]
pub struct RawHookEntry {
    /// The event.
    pub event: String,
    /// The command for the shell.
    pub command: String,
    /// The shell.
    pub shell: Option<String>,
    /// The condition under which it runs.
    pub when: Option<String>,
    /// Whether its failure fails the apply.
    pub must_succeed: Option<bool>,
}

/// The event that a word stands for.
pub open spec fn event_named(word: Seq<char>) -> Option<HookEvent> {
    if word == "pre_apply"@ {
        Some(HookEvent::PreApply)
    } else if word == "post_apply"@ {
        Some(HookEvent::PostApply)
    } else {
        None
    }
}

impl HookEntry {
    /// Validates a `[[hook]]` table. A hook must succeed unless the table says
    /// that it need not.
    pub fn from_raw(raw: RawHookEntry) -> (r: Result<Self, HookEntryError>)
        ensures
            match event_named(raw.event@) {
                Some(event) => r is Ok && r->Ok_0@ == (HookModel {
                    event,
                    command: raw.command@,
                    shell: opt_view(raw.shell),
                    when: opt_view(raw.when),
                    must_succeed: raw.must_succeed != Some(false),
                }),
                None => r == Err::<HookEntry, HookEntryError>(
                    HookEntryError::UnsupportedEvent { value: raw.event },
                ),
            },
    {
        let RawHookEntry { event: word, command, shell, when, must_succeed } = raw;
        let event: HookEvent = if same_text(word.as_str(), "pre_apply") {
            HookEvent::PreApply
        } else if same_text(word.as_str(), "post_apply") {
            HookEvent::PostApply
        } else {
            return Err(HookEntryError::UnsupportedEvent { value: word });
        };
        proof {
            reveal_strlit("pre_apply");
            reveal_strlit("post_apply");
        }
        let must_succeed: bool = match must_succeed {
            Some(given) => given,
            None => true,
        };
        Ok(HookEntry { event, command, shell, when, must_succeed })
    }
}

} // verus!
