//! A block of editable text with a version number (bumped on every edit) and an
//! identifier, so that views of the text know when to refresh.
use vstd::prelude::*;
use crate::text::{chars_of, push_char};

verus! {

pub type TextUID = usize;

/// Hands out identifiers for text blocks, one after another.
#[derive(Debug)]
pub struct UidCounter {
    next: usize,
}

impl UidCounter {
    pub closed spec fn next_uid(&self) -> usize {
        self.next
    }

    pub fn new() -> (r: Self)
        ensures
            r.next_uid() == 0,
    {
        UidCounter { next: 0 }
    }

    /// Takes the next identifier (counting on, and wrapping around like an atomic counter).
    pub fn fresh(&mut self) -> (r: TextUID)
        ensures
            r == old(self).next_uid(),
            final(self).next_uid() == if old(self).next_uid() < usize::MAX { old(self).next_uid() + 1 } else { 0 },
    {
        let r = self.next;
        self.next = if self.next < usize::MAX { self.next + 1 } else { 0 };
        r
    }
}

/// An abstraction for a block of text.
#[derive(Debug)]
pub struct Text {
    pub text: String,
    // version number and uid for knowing when the text is updated
    version: usize,
    struct_uid: TextUID,
}

impl Text {
    /// The characters of the text.
    pub closed spec fn content(&self) -> Seq<char> {
        self.text@
    }

    pub closed spec fn version_spec(&self) -> usize {
        self.version
    }

    pub closed spec fn uid(&self) -> TextUID {
        self.struct_uid
    }

    /// An empty text block with identifier `uid`.
    pub fn new(uid: TextUID) -> (r: Self)
        ensures
            r.content() == Seq::<char>::empty(),
            r.version_spec() == 0,
            r.uid() == uid,
    {
        Text { text: String::new(), version: 0, struct_uid: uid }
    }

    /// A text block holding `s`, with identifier `uid`.
    pub fn from_string(s: String, uid: TextUID) -> (r: Self)
        ensures
            r.content() == s@,
            r.version_spec() == 0,
            r.uid() == uid,
    {
        Text { text: s, version: 0, struct_uid: uid }
    }

    pub fn id(&self) -> (r: TextUID)
        ensures
            r == self.uid(),
    {
        self.struct_uid
    }

    /// The version and identifier of the text block, by which a view knows whether what it
    /// shows is still current.
    pub fn buffer_signature(&self) -> (r: (usize, TextUID))
        ensures
            r == (self.version_spec(), self.uid()),
    {
        (self.version, self.struct_uid)
    }

    pub fn version(&self) -> (r: usize)
        ensures
            r == self.version_spec(),
    {
        self.version
    }

    pub fn as_str(&self) -> (r: &str)
        ensures
            r@ == self.content(),
    {
        self.text.as_str()
    }

    /// Inserts `text` before the character at `char_index` (at the end when the index is
    /// past it), counting as one edit. Returns the number of characters inserted.
    pub fn insert_text(&mut self, text: &str, char_index: usize) -> (r: usize)
        ensures
            ({
                let old_t = old(self).content();
                let at = if char_index <= old_t.len() { char_index as int } else { old_t.len() as int };
                final(self).content() == old_t.take(at) + text@ + old_t.skip(at)
            }),
            r == text@.len(),
            final(self).version_spec() == (if old(self).version_spec() < usize::MAX { old(self).version_spec() + 1 } else { 0 }),
            final(self).uid() == old(self).uid(),
    {
        self.version = if self.version < usize::MAX { self.version + 1 } else { 0 };
        let v = chars_of(self.text.as_str());
        let ins = chars_of(text);
        let at = if char_index <= v.len() { char_index } else { v.len() };
        let mut out = String::new();
        let mut i: usize = 0;
        while i < at
            invariant
                i <= at <= v.len(),
                out@ == v@.take(i as int),
            decreases at - i,
        {
            push_char(&mut out, v[i]);
            i = i + 1;
            assert(out@ =~= v@.take(i as int));
        }
        out.append(text);
        let mut j: usize = at;
        while j < v.len()
            invariant
                at <= j <= v.len(),
                out@ == v@.take(at as int) + text@ + v@.subrange(at as int, j as int),
            decreases v.len() - j,
        {
            push_char(&mut out, v[j]);
            j = j + 1;
            assert(out@ =~= v@.take(at as int) + text@ + v@.subrange(at as int, j as int));
        }
        assert(v@.subrange(at as int, j as int) =~= v@.skip(at as int));
        self.text = out;
        ins.len()
    }

    /// Deletes the characters from `start` up to `end` (both clamped to the end of the
    /// text), counting as one edit.
    pub fn delete_char_range(&mut self, start: usize, end: usize)
        requires
            start <= end,
        ensures
            ({
                let old_t = old(self).content();
                let a = if start <= old_t.len() { start as int } else { old_t.len() as int };
                let b = if end <= old_t.len() { end as int } else { old_t.len() as int };
                final(self).content() == old_t.take(a) + old_t.skip(b)
            }),
            final(self).version_spec() == (if old(self).version_spec() < usize::MAX { old(self).version_spec() + 1 } else { 0 }),
            final(self).uid() == old(self).uid(),
    {
        self.version = if self.version < usize::MAX { self.version + 1 } else { 0 };
        let v = chars_of(self.text.as_str());
        let a = if start <= v.len() { start } else { v.len() };
        let b = if end <= v.len() { end } else { v.len() };
        let mut out = String::new();
        let mut i: usize = 0;
        while i < a
            invariant
                i <= a <= v.len(),
                out@ == v@.take(i as int),
            decreases a - i,
        {
            push_char(&mut out, v[i]);
            i = i + 1;
            assert(out@ =~= v@.take(i as int));
        }
        let mut j: usize = b;
        while j < v.len()
            invariant
                b <= j <= v.len(),
                a <= v.len(),
                out@ == v@.take(a as int) + v@.subrange(b as int, j as int),
            decreases v.len() - j,
        {
            push_char(&mut out, v[j]);
            j = j + 1;
            assert(out@ =~= v@.take(a as int) + v@.subrange(b as int, j as int));
        }
        assert(v@.subrange(b as int, j as int) =~= v@.skip(b as int));
        self.text = out;
    }
}

} // verus!
