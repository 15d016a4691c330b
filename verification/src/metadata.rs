//! One metadata entry of an envelope: a key text and a value text.
//!
//! Both fields are optional at the wire level: an absent text is a null
//! pointer and reads back as the empty string. `Builder` is the mutable
//! form used when composing an envelope; `Reader` is the immutable form
//! produced by decoding one.

use vstd::prelude::*;

verus! {

/// The mathematical value of one entry: each text is either absent or a
/// sequence of characters.
pub struct EntryView {
    pub key: Option<Seq<char>>,
    pub val: Option<Seq<char>>,
}

/// The view of an optional text field.
pub open spec fn text_view(o: Option<String>) -> Option<Seq<char>> {
    match o {
        Option::Some(s) => Option::Some(s@),
        Option::None => Option::None,
    }
}

/// The characters a text field reads back as: its contents, or empty
/// when the field is absent.
pub open spec fn text_or_empty(o: Option<Seq<char>>) -> Seq<char> {
    match o {
        Option::Some(s) => s,
        Option::None => Seq::empty(),
    }
}

/// A metadata entry under construction.
pub struct Builder {
    key: Option<String>,
    val: Option<String>,
}

impl View for Builder {
    type V = EntryView;

    closed spec fn view(&self) -> EntryView {
        EntryView { key: text_view(self.key), val: text_view(self.val) }
    }
}

impl Builder {
    /// A new entry with both fields absent.
    pub fn new() -> (r: Builder)
        ensures
            r@ == (EntryView { key: Option::None, val: Option::None }),
    {
        Builder { key: Option::None, val: Option::None }
    }

    /// An entry with both fields set.
    pub fn with_texts(key: &str, val: &str) -> (r: Builder)
        ensures
            r@ == (EntryView { key: Option::Some(key@), val: Option::Some(val@) }),
    {
        Builder { key: Option::Some(key.to_owned()), val: Option::Some(val.to_owned()) }
    }

    pub fn set_key(&mut self, key: &str)
        ensures
            final(self)@ == (EntryView { key: Option::Some(key@), val: old(self)@.val }),
    {
        self.key = Option::Some(key.to_owned());
    }

    pub fn set_val(&mut self, val: &str)
        ensures
            final(self)@ == (EntryView { key: old(self)@.key, val: Option::Some(val@) }),
    {
        self.val = Option::Some(val.to_owned());
    }

    /// The key text, or the empty string when the field is absent.
    pub fn get_key(&self) -> (r: String)
        ensures
            r@ == text_or_empty(self@.key),
    {
        match &self.key {
            Option::Some(s) => s.clone(),
            Option::None => String::new(),
        }
    }

    /// The value text, or the empty string when the field is absent.
    pub fn get_val(&self) -> (r: String)
        ensures
            r@ == text_or_empty(self@.val),
    {
        match &self.val {
            Option::Some(s) => s.clone(),
            Option::None => String::new(),
        }
    }

    pub fn has_key(&self) -> (r: bool)
        ensures
            r == (self@.key is Some),
    {
        self.key.is_some()
    }

    pub fn has_val(&self) -> (r: bool)
        ensures
            r == (self@.val is Some),
    {
        self.val.is_some()
    }

    /// Borrow the key text without losing track of whether it is set.
    pub fn key_ref(&self) -> (r: Option<&String>)
        ensures
            match r {
                Option::Some(s) => self@.key == Option::Some(s@),
                Option::None => self@.key is None,
            },
    {
        match &self.key {
            Option::Some(s) => Option::Some(s),
            Option::None => Option::None,
        }
    }

    /// Borrow the value text without losing track of whether it is set.
    pub fn val_ref(&self) -> (r: Option<&String>)
        ensures
            match r {
                Option::Some(s) => self@.val == Option::Some(s@),
                Option::None => self@.val is None,
            },
    {
        match &self.val {
            Option::Some(s) => Option::Some(s),
            Option::None => Option::None,
        }
    }

    /// Freeze the entry into its immutable form.
    pub fn into_reader(self) -> (r: Reader)
        ensures
            r@ == self@,
    {
        Reader { key: self.key, val: self.val }
    }
}

/// A decoded metadata entry.
pub struct Reader {
    key: Option<String>,
    val: Option<String>,
}

impl View for Reader {
    type V = EntryView;

    closed spec fn view(&self) -> EntryView {
        EntryView { key: text_view(self.key), val: text_view(self.val) }
    }
}

impl Reader {
    /// Used by the envelope decoder to assemble a decoded entry.
    pub fn from_texts(key: Option<String>, val: Option<String>) -> (r: Reader)
        ensures
            r@ == (EntryView { key: text_view(key), val: text_view(val) }),
    {
        Reader { key, val }
    }

    /// The key text, or the empty string when the field is absent.
    pub fn get_key(&self) -> (r: String)
        ensures
            r@ == text_or_empty(self@.key),
    {
        match &self.key {
            Option::Some(s) => s.clone(),
            Option::None => String::new(),
        }
    }

    /// The value text, or the empty string when the field is absent.
    pub fn get_val(&self) -> (r: String)
        ensures
            r@ == text_or_empty(self@.val),
    {
        match &self.val {
            Option::Some(s) => s.clone(),
            Option::None => String::new(),
        }
    }

    pub fn has_key(&self) -> (r: bool)
        ensures
            r == (self@.key is Some),
    {
        self.key.is_some()
    }

    pub fn has_val(&self) -> (r: bool)
        ensures
            r == (self@.val is Some),
    {
        self.val.is_some()
    }
}

} // verus!
