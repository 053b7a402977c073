//! The settings that a command has read from the store.

use crate::error::{AppError, AppErrorView, AppResult};
use crate::text::{blank, is_blank, is_white_space, lemma_blank, same_text};
use vstd::prelude::*;

verus! {

/// What the store answered for one key.
pub enum Stored {
    Value(String),
    Missing,
    /// The read failed with this message.
    Unreadable(String),
}

/// The model of a [`Stored`].
pub enum StoredView {
    Value(Seq<char>),
    Missing,
    Unreadable(Seq<char>),
}

impl View for Stored {
    type V = StoredView;

    open spec fn view(&self) -> StoredView {
        match self {
            Stored::Value(v) => StoredView::Value(v@),
            Stored::Missing => StoredView::Missing,
            Stored::Unreadable(m) => StoredView::Unreadable(m@),
        }
    }
}

/// The value of a setting; nothing where it is missing or could not be read.
pub open spec fn value_of(s: StoredView) -> Option<Seq<char>> {
    match s {
        StoredView::Value(v) => Some(v),
        _ => None,
    }
}

/// A setting counts as configured when it holds more than white space.
pub open spec fn is_configured(s: StoredView) -> bool {
    match s {
        StoredView::Value(v) => !is_blank(v),
        _ => false,
    }
}

/// Answers of the store, the latest first.
pub struct Settings {
    pub entries: Vec<(String, Stored)>,
}

/// The answer recorded for `key`.
pub open spec fn answer(entries: Seq<(String, Stored)>, key: Seq<char>) -> StoredView
    decreases entries.len(),
{
    if entries.len() == 0 {
        StoredView::Missing
    } else if entries[0].0@ == key {
        entries[0].1@
    } else {
        answer(entries.drop_first(), key)
    }
}

impl Settings {
    /// The answer recorded for `key`; a key that was never recorded is missing.
    pub open spec fn at(self, key: Seq<char>) -> StoredView {
        answer(self.entries@, key)
    }

    /// No answers.
    pub fn new() -> (s: Settings)
        ensures
            forall|key: Seq<char>| #[trigger] s.at(key) == StoredView::Missing,
    {
        Settings { entries: Vec::new() }
    }

    /// Records the answer for one key.
    pub fn record(&mut self, key: &str, stored: Stored)
        ensures
            final(self).at(key@) == stored@,
            forall|other: Seq<char>|
                other != key@ ==> #[trigger] final(self).at(other) == old(self).at(other),
    {
        self.entries.insert(0, (key.to_string(), stored));
        assert(self.entries@.drop_first() =~= old(self).entries@);
    }

    /// The position of the answer for `key`.
    fn position(&self, key: &str) -> (r: Option<usize>)
        ensures
            match r {
                Some(i) => i < self.entries@.len() && self.at(key@) == self.entries@[i as int].1@,
                None => self.at(key@) == StoredView::Missing,
            },
    {
        let n: usize = self.entries.len();
        let mut i: usize = 0;
        assert(self.entries@.skip(0) =~= self.entries@);
        while i < n
            invariant
                n == self.entries@.len(),
                i <= n,
                self.at(key@) == answer(self.entries@.skip(i as int), key@),
            decreases n - i,
        {
            let ghost rest = self.entries@.skip(i as int);
            assert(rest[0] == self.entries@[i as int]);
            assert(rest.drop_first() =~= self.entries@.skip(i + 1));
            if same_text(self.entries[i].0.as_str(), key) {
                return Some(i);
            }
            i = i + 1;
        }
        None
    }

    /// The value of `key`; a failed read is an error.
    pub fn read(&self, key: &str) -> (r: AppResult<Option<String>>)
        ensures
            match self.at(key@) {
                StoredView::Value(v) => r matches Ok(Some(t)) && t@ == v,
                StoredView::Missing => r matches Ok(None),
                StoredView::Unreadable(m) => r matches Err(e) && e@ == AppErrorView::Other(m),
            },
    {
        match self.position(key) {
            None => Ok(None),
            Some(i) => match &self.entries[i].1 {
                Stored::Value(v) => Ok(Some(v.clone())),
                Stored::Missing => Ok(None),
                Stored::Unreadable(m) => Err(AppError::other(m.clone())),
            },
        }
    }

    /// The value of `key`; a failed read counts as no value.
    pub fn value(&self, key: &str) -> (r: Option<&str>)
        ensures
            match r {
                Some(t) => value_of(self.at(key@)) == Some(t@),
                None => value_of(self.at(key@)) is None,
            },
    {
        match self.position(key) {
            None => None,
            Some(i) => match &self.entries[i].1 {
                Stored::Value(v) => Some(v.as_str()),
                _ => None,
            },
        }
    }

    /// Whether `key` holds more than white space.
    pub fn configured(&self, key: &str) -> (b: bool)
        ensures
            b == is_configured(self.at(key@)),
    {
        match self.value(key) {
            Some(v) => !blank(v),
            None => false,
        }
    }
}

/// What [`require_setting`] fails with, if it fails.
pub open spec fn requirement_error(s: StoredView, missing: Seq<char>) -> Option<AppErrorView> {
    match s {
        StoredView::Value(v) => if is_blank(v) {
            Some(AppErrorView::Code(missing))
        } else {
            None
        },
        StoredView::Missing => Some(AppErrorView::Code(missing)),
        StoredView::Unreadable(m) => Some(AppErrorView::Other(m)),
    }
}

/// Reads a required, non-empty setting; the localisable `missing` code says that the key is absent
/// or holds only white space.
pub fn require_setting(settings: &Settings, key: &str, missing: &'static str) -> (r: AppResult<
    String,
>)
    ensures
        match r {
            Ok(v) => settings.at(key@) == StoredView::Value(v@) && requirement_error(
                settings.at(key@),
                missing@,
            ) is None,
            Err(e) => requirement_error(settings.at(key@), missing@) == Some(e@),
        },
{
    match settings.read(key) {
        Ok(Some(v)) => if blank(v.as_str()) {
            Err(AppError::code(missing))
        } else {
            Ok(v)
        },
        Ok(None) => Err(AppError::code(missing)),
        Err(e) => Err(e),
    }
}

// ------------------------------------------------------------------------- laws

/// A setting counts as configured, and satisfies a requirement, exactly where one of its
/// characters is not white space. A missing or blank one is reported under the code that the
/// requirement names, an unreadable one with the message of the store.
pub proof fn law_blank_settings_count_as_missing(v: Seq<char>, code: Seq<char>, m: Seq<char>)
    ensures
        (exists|i: int| 0 <= i < v.len() && !is_white_space(#[trigger] v[i])) ==> {
            &&& is_configured(StoredView::Value(v))
            &&& requirement_error(StoredView::Value(v), code) is None
        },
        (forall|i: int| 0 <= i < v.len() ==> is_white_space(#[trigger] v[i])) ==> {
            &&& !is_configured(StoredView::Value(v))
            &&& requirement_error(StoredView::Value(v), code) == Some(AppErrorView::Code(code))
        },
        !is_configured(StoredView::Missing),
        requirement_error(StoredView::Missing, code) == Some(AppErrorView::Code(code)),
        !is_configured(StoredView::Unreadable(m)),
        requirement_error(StoredView::Unreadable(m), code) == Some(AppErrorView::Other(m)),
        value_of(StoredView::Value(v)) == Some(v),
        value_of(StoredView::Missing) is None,
        value_of(StoredView::Unreadable(m)) is None,
{
    lemma_blank(v);
}

} // verus!
