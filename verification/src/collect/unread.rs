//! Why a source could not be read.

use crate::text::{decimal, decimal_of, owned};
use vstd::prelude::*;
use vstd::string::*;

verus! {

/// What is wrong with what a source was read from.
#[derive(Clone, Copy, Debug, PartialEq, Eq, Structural)]
pub enum Cause {
    NoCpuLine,
    TooFewFields(u64),
    NotANumber,
    NoValue,
    UnknownUnit,
    NoTotal,
    NoField(u64),
    ZeroMaximum,
    NoChip,
    NoSensor,
    NoInterface,
    Unreadable,
    NoController,
}

/// A source that could not be read: what is wrong, and with which word.
#[derive(Debug)]
pub struct Unread {
    pub cause: Cause,
    pub word: String,
}

/// What an `Unread` says.
#[verifier::ext_equal]
pub struct UnreadView {
    pub cause: Cause,
    pub word: Seq<char>,
}

impl View for Unread {
    type V = UnreadView;

    open spec fn view(&self) -> UnreadView {
        UnreadView { cause: self.cause, word: self.word@ }
    }
}

/// A source that could not be read because of one word.
pub open spec fn because(cause: Cause, word: Seq<char>) -> UnreadView {
    UnreadView { cause, word }
}

/// What a read came to.
pub open spec fn read<T: View>(r: Result<T, Unread>) -> Result<T::V, UnreadView> {
    match r {
        Ok(t) => Ok(t@),
        Err(e) => Err(e@),
    }
}

/// The words before and after the word a message is about.
pub open spec fn words_around(cause: Cause) -> (Seq<char>, Seq<char>) {
    match cause {
        Cause::NoCpuLine => ("/proc/stat has no aggregate cpu line"@, ""@),
        Cause::TooFewFields(_) => ("the cpu line in /proc/stat has too few fields: "@, ""@),
        Cause::NotANumber => (""@, " is not a number"@),
        Cause::NoValue => ("there is no value in the line of "@, ""@),
        Cause::UnknownUnit => ("unexpected unit "@, ""@),
        Cause::NoTotal => ("/proc/meminfo has no MemTotal line"@, ""@),
        Cause::NoField(_) => ("/proc/loadavg has no field "@, ""@),
        Cause::ZeroMaximum => (""@, " reports a maximum brightness of zero"@),
        Cause::NoChip => ("no hwmon chip is called "@, ""@),
        Cause::NoSensor => ("no processor temperature sensor was found"@, ""@),
        Cause::NoInterface => ("there is no network interface called "@, ""@),
        Cause::Unreadable => (""@, " could not be read"@),
        Cause::NoController => ("no backlight controller to change"@, ""@),
    }
}

fn around(cause: Cause) -> (r: (&'static str, &'static str))
    ensures
        (r.0@, r.1@) == words_around(cause),
{
    match cause {
        Cause::NoCpuLine => ("/proc/stat has no aggregate cpu line", ""),
        Cause::TooFewFields(_) => ("the cpu line in /proc/stat has too few fields: ", ""),
        Cause::NotANumber => ("", " is not a number"),
        Cause::NoValue => ("there is no value in the line of ", ""),
        Cause::UnknownUnit => ("unexpected unit ", ""),
        Cause::NoTotal => ("/proc/meminfo has no MemTotal line", ""),
        Cause::NoField(_) => ("/proc/loadavg has no field ", ""),
        Cause::ZeroMaximum => ("", " reports a maximum brightness of zero"),
        Cause::NoChip => ("no hwmon chip is called ", ""),
        Cause::NoSensor => ("no processor temperature sensor was found", ""),
        Cause::NoInterface => ("there is no network interface called ", ""),
        Cause::Unreadable => ("", " could not be read"),
        Cause::NoController => ("no backlight controller to change", ""),
    }
}

/// The number in a cause, where there is one.
pub open spec fn count_in(cause: Cause) -> Seq<char> {
    match cause {
        Cause::TooFewFields(n) | Cause::NoField(n) => decimal(n as nat),
        _ => Seq::empty(),
    }
}

impl Unread {
    pub fn new(cause: Cause, word: &str) -> (u: Unread)
        ensures
            u@ == because(cause, word@),
    {
        Unread { cause, word: owned(word) }
    }

    /// A source that could not be read because of no word in particular.
    pub fn plainly(cause: Cause) -> (u: Unread)
        ensures
            u@ == because(cause, Seq::empty()),
    {
        let u = Unread { cause, word: String::new() };
        assert(u@ =~= because(cause, Seq::empty()));
        u
    }

    /// What to say about it.
    pub fn message(&self) -> (s: String)
        ensures
            s@ == words_around(self.cause).0 + count_in(self.cause) + self.word@ + words_around(
                self.cause,
            ).1,
    {
        let w = around(self.cause);
        let count = match self.cause {
            Cause::TooFewFields(n) | Cause::NoField(n) => decimal_of(n),
            _ => String::new(),
        };
        owned(w.0).concat(count.as_str()).concat(self.word.as_str()).concat(w.1)
    }
}

} // verus!
