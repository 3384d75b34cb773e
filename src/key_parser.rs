use vstd::prelude::*;
use vstd::string::StrSliceExecFns;
use vstd::utf8::{decode_utf8, encode_utf8, valid_utf8};

use crate::key_error::KeyError;
use crate::key_helper::{decode_id, id_value, unescape, unescape_bytes};

verus! {

/// The position of the first `/` at or after `from` in `key`, or the length
/// of `key` where there is none.
pub open spec fn segment_end(key: Seq<char>, from: int) -> int
    decreases key.len() - from,
{
    if from >= key.len() {
        key.len() as int
    } else if key[from] == '/' {
        from
    } else {
        segment_end(key, from + 1)
    }
}

/// The segment of `key` that starts at `from`.
pub open spec fn segment_at(key: Seq<char>, from: int) -> Seq<char> {
    key.subrange(from, segment_end(key, from))
}

/// Whether `a` and `b` hold the same characters.
fn same_chars(a: &str, b: &str) -> (r: bool)
    ensures
        r == (a@ == b@),
{
    let n = a.unicode_len();
    if n != b.unicode_len() {
        return false;
    }
    let mut i: usize = 0;
    while i < n
        invariant
            0 <= i <= n,
            n == a@.len(),
            n == b@.len(),
            forall|j: int| 0 <= j < i ==> a@[j] == b@[j],
        decreases n - i,
    {
        if a.get_char(i) != b.get_char(i) {
            return false;
        }
        i = i + 1;
    }
    proof {
        assert(a@ =~= b@);
    }
    true
}

/// A helper for parsing a string key into a structured key: the key is read
/// segment by segment, the segments being separated by `/`.
pub struct KeyParser<'s> {
    str_key: &'s str,
    /// The number of characters of `str_key`.
    len: usize,
    /// The number of segments returned so far.
    i: usize,
    /// The position of the next segment in `str_key`; past its end once
    /// every segment has been returned.
    index: usize,
}

impl<'s> KeyParser<'s> {
    /// The characters of the key being parsed.
    pub closed spec fn key(&self) -> Seq<char> {
        self.str_key@
    }

    /// The number of segments returned so far.
    pub closed spec fn count(&self) -> nat {
        self.i as nat
    }

    /// The position of the next segment; above the key's length once every
    /// segment has been returned.
    pub closed spec fn position(&self) -> nat {
        self.index as nat
    }

    pub closed spec fn wf(&self) -> bool {
        &&& self.len == self.str_key@.len()
        &&& self.index <= self.len + 1
        &&& self.i <= self.index
        &&& self.len <= isize::MAX
    }

    /// Whether a segment is left to return.
    pub open spec fn has_next(&self) -> bool {
        self.position() <= self.key().len()
    }

    /// The next segment to return.
    pub open spec fn next_segment(&self) -> Seq<char> {
        segment_at(self.key(), self.position() as int)
    }

    /// The parser state once the next segment is returned.
    pub open spec fn advanced(&self, next: &Self) -> bool {
        &&& next.key() == self.key()
        &&& next.count() == self.count() + 1
        &&& next.position() == segment_end(self.key(), self.position() as int) + 1
    }

    /// Whether `next` is the same parser state as `self`.
    pub open spec fn unmoved(&self, next: &Self) -> bool {
        &&& next.key() == self.key()
        &&& next.count() == self.count()
        &&& next.position() == self.position()
    }

    /// Whether `e` says that the key has fewer than `expect` segments.
    pub open spec fn too_few(&self, e: KeyError, expect: nat) -> bool {
        e matches KeyError::WrongNumberOfSegments { expect: x, got } && x == expect && got@
            == self.key()
    }

    /// Create a new parser, splitting the key by the delimiter `/`. The key
    /// has no more characters than bytes, and Rust holds no more than
    /// `isize::MAX` bytes in one value.
    pub fn new(source: &'s str) -> (r: Self)
        requires
            source@.len() <= isize::MAX,
        ensures
            r.wf(),
            r.key() == source@,
            r.count() == 0,
            r.position() == 0,
    {
        let len = source.unicode_len();
        KeyParser { str_key: source, len, i: 0, index: 0 }
    }

    /// Like `new`, but the first segment must be `prefix`, and is consumed.
    pub fn new_prefixed(source: &'s str, prefix: &str) -> (r: Result<Self, KeyError>)
        requires
            source@.len() <= isize::MAX,
        ensures
            segment_at(source@, 0) == prefix@ ==> (r matches Ok(p) && p.wf() && p.key()
                == source@ && p.count() == 1 && p.position() == segment_end(source@, 0) + 1),
            segment_at(source@, 0) != prefix@ ==> (r matches Err(
                KeyError::InvalidSegment { i, expect, got },
            ) && i == 0 && expect@ == prefix@ && got@ == segment_at(source@, 0)),
    {
        let mut s = Self::new(source);
        match s.next_literal(prefix) {
            Ok(()) => Ok(s),
            Err(e) => Err(e),
        }
    }

    /// Pop the next segment as it stands in the key, without unescaping or
    /// decoding. With no segment left, it returns
    /// `KeyError::WrongNumberOfSegments`.
    pub fn next_raw(&mut self) -> (r: Result<&'s str, KeyError>)
        requires
            old(self).wf(),
        ensures
            final(self).wf(),
            old(self).has_next() ==> (r matches Ok(s) && s@ == old(self).next_segment() && old(
                self,
            ).advanced(&*final(self))),
            !old(self).has_next() ==> (r matches Err(e) && old(self).too_few(e, old(self).count() + 1)
                && old(self).unmoved(&*final(self))),
    {
        if self.index > self.len {
            return Err(
                KeyError::WrongNumberOfSegments { expect: self.i + 1, got: self.str_key.to_owned() },
            );
        }
        let ghost key = self.str_key@;
        let start = self.index;
        let mut end = start;
        while end < self.len && self.str_key.get_char(end) != '/'
            invariant
                start <= end <= self.len,
                self.len == key.len(),
                key == self.str_key@,
                segment_end(key, start as int) == segment_end(key, end as int),
            decreases self.len - end,
        {
            end = end + 1;
        }
        proof {
            assert(segment_end(key, end as int) == end);
        }
        let seg = self.str_key.substring_char(start, end);
        self.i = self.i + 1;
        self.index = end + 1;
        Ok(seg)
    }

    /// Pop the next segment and unescape it.
    pub fn next_str(&mut self) -> (r: Result<String, KeyError>)
        requires
            old(self).wf(),
        ensures
            final(self).wf(),
            !old(self).has_next() ==> (r matches Err(e) && old(self).too_few(e, old(self).count() + 1)
                && old(self).unmoved(&*final(self))),
            old(self).has_next() ==> old(self).advanced(&*final(self)) && match unescape_bytes(
                encode_utf8(old(self).next_segment()),
            ) {
                None => r matches Err(KeyError::InvalidEscape { s }) && s@ == old(
                    self,
                ).next_segment(),
                Some(u) => if valid_utf8(u) {
                    r matches Ok(t) && t@ == decode_utf8(u)
                } else {
                    r matches Err(KeyError::InvalidUtf8 { s }) && s@ == old(self).next_segment()
                },
            },
    {
        let elt = self.next_raw()?;
        unescape(elt)
    }

    /// Pop the next segment and read it as a decimal `u64`.
    pub fn next_u64(&mut self) -> (r: Result<u64, KeyError>)
        requires
            old(self).wf(),
        ensures
            final(self).wf(),
            !old(self).has_next() ==> (r matches Err(e) && old(self).too_few(e, old(self).count() + 1)
                && old(self).unmoved(&*final(self))),
            old(self).has_next() ==> old(self).advanced(&*final(self)) && match id_value(
                old(self).next_segment(),
            ) {
                Ok(v) => r == Ok::<u64, KeyError>(v),
                Err(e) => r matches Err(KeyError::InvalidId { s, reason }) && s@ == old(
                    self,
                ).next_segment() && reason == e,
            },
    {
        let elt = self.next_raw()?;
        decode_id(elt)
    }

    /// Pop the next segment, which must equal `expect`. With no segment left
    /// it returns `KeyError::WrongNumberOfSegments`; with another segment,
    /// `KeyError::InvalidSegment`.
    pub fn next_literal(&mut self, expect: &str) -> (r: Result<(), KeyError>)
        requires
            old(self).wf(),
        ensures
            final(self).wf(),
            !old(self).has_next() ==> (r matches Err(e) && old(self).too_few(e, old(self).count() + 1)
                && old(self).unmoved(&*final(self))),
            old(self).has_next() ==> old(self).advanced(&*final(self)) && (if old(
                self,
            ).next_segment() == expect@ {
                r is Ok
            } else {
                r matches Err(KeyError::InvalidSegment { i, expect: x, got }) && i == old(
                    self,
                ).count() && x@ == expect@ && got@ == old(self).next_segment()
            }),
    {
        let ith = self.i;
        let elt = self.next_raw()?;
        if !same_chars(elt, expect) {
            return Err(
                KeyError::InvalidSegment { i: ith, expect: expect.to_owned(), got: elt.to_owned() },
            );
        }
        Ok(())
    }

    /// The rest of the key, from the next segment on, as it stands. With no
    /// segment left, it returns `KeyError::WrongNumberOfSegments`.
    pub fn tail_raw(&mut self) -> (r: Result<&'s str, KeyError>)
        requires
            old(self).wf(),
        ensures
            final(self).wf(),
            !old(self).has_next() ==> (r matches Err(e) && old(self).too_few(e, old(self).count() + 1)
                && old(self).unmoved(&*final(self))),
            old(self).has_next() ==> (r matches Ok(s) && s@ == old(self).key().subrange(
                old(self).position() as int,
                old(self).key().len() as int,
            ) && old(self).advanced(&*final(self))),
    {
        let index = self.index;
        let _ = self.next_raw()?;
        Ok(self.str_key.substring_char(index, self.len))
    }

    /// Finish parsing. With a segment left, it returns
    /// `KeyError::WrongNumberOfSegments`, whose `expect` is the number of
    /// segments returned so far; that segment is dropped without being
    /// counted, so the next one is returned next and later errors still
    /// report the same count.
    pub fn done(&mut self) -> (r: Result<(), KeyError>)
        requires
            old(self).wf(),
        ensures
            final(self).wf(),
            !old(self).has_next() ==> r is Ok && old(self).unmoved(&*final(self)),
            old(self).has_next() ==> (r matches Err(e) && old(self).too_few(e, old(self).count())
                && final(self).key() == old(self).key() && final(self).count() == old(self).count()
                && final(self).position() == segment_end(
                old(self).key(),
                old(self).position() as int,
            ) + 1),
    {
        let ith = self.i;
        match self.next_raw() {
            Ok(_) => {
                self.i = ith;
                Err(KeyError::WrongNumberOfSegments { expect: ith, got: self.str_key.to_owned() })
            },
            Err(_) => Ok(()),
        }
    }
}

} // verus!
