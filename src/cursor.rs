use vstd::prelude::*;
use vstd::utf8::encode_utf8;

verus! {

proof fn lemma_encode_len_append(a: Seq<char>, b: Seq<char>)
    ensures
        encode_utf8(a + b).len() == encode_utf8(a).len() + encode_utf8(b).len(),
    decreases a.len(),
{
    if a.len() > 0 {
        assert((a + b)[0] == a[0]);
        assert((a + b).drop_first() =~= a.drop_first() + b);
        lemma_encode_len_append(a.drop_first(), b);
    } else {
        assert(a + b =~= b);
    }
}

proof fn lemma_encode_len_ge(a: Seq<char>)
    ensures
        encode_utf8(a).len() >= a.len(),
    decreases a.len(),
{
    if a.len() > 0 {
        lemma_encode_len_ge(a.drop_first());
    }
}

/// A longer prefix takes more bytes, so a byte count ends at most one
/// character prefix.
pub proof fn lemma_prefix_bytes_increase(s: Seq<char>, j: int, k: int)
    requires
        0 <= j < k <= s.len(),
    ensures
        encode_utf8(s.take(j)).len() < encode_utf8(s.take(k)).len(),
{
    assert(s.take(k) =~= s.take(j) + s.subrange(j, k));
    lemma_encode_len_append(s.take(j), s.subrange(j, k));
    lemma_encode_len_ge(s.subrange(j, k));
}

/// A cursor over a formula: the text, the position (in codepoints) of the
/// first character not yet consumed, and that character cached.
pub struct TokenizingChars<'a> {
    current: Option<char>,
    input: &'a str,
    index: usize,
    len: usize,
}

impl<'a> TokenizingChars<'a> {
    /// The whole text the cursor runs over.
    pub closed spec fn text(&self) -> Seq<char> {
        self.input@
    }

    /// The position of the cursor, in codepoints from the start.
    pub closed spec fn pos(&self) -> int {
        self.index as int
    }

    /// The text not yet consumed.
    pub open spec fn rest(&self) -> Seq<char> {
        self.text().subrange(self.pos(), self.text().len() as int)
    }

    pub closed spec fn wf(&self) -> bool {
        &&& self.len as int == self.input@.len()
        &&& self.index <= self.len
        &&& self.current == if self.index < self.len {
            Some(self.input@[self.index as int])
        } else {
            None::<char>
        }
    }

    fn char_at(input: &str, i: usize, len: usize) -> (r: Option<char>)
        requires
            len == input@.len(),
        ensures
            r == if i < len { Some(input@[i as int]) } else { None::<char> },
    {
        if i < len {
            Some(input.get_char(i))
        } else {
            None
        }
    }

    pub proof fn lemma_bounds(&self)
        requires
            self.wf(),
        ensures
            0 <= self.pos() <= self.text().len() <= usize::MAX,
    {
    }

    /// Moving the cursor `n` places on drops `n` characters from what is left.
    pub proof fn lemma_rest_after(before: Self, after: Self, n: int)
        requires
            before.wf(),
            after.wf(),
            after.text() == before.text(),
            after.pos() == before.pos() + n,
            0 <= n,
        ensures
            after.rest() == before.rest().skip(n),
    {
        assert(after.rest() =~= before.rest().skip(n));
    }

    /// A cursor at the start of `input`.
    pub fn new(input: &'a str) -> (r: Self)
        ensures
            r.wf(),
            r.text() == input@,
            r.pos() == 0,
    {
        let len = input.unicode_len();
        let current = Self::char_at(input, 0, len);
        TokenizingChars { current, input, index: 0, len }
    }

    /// The next character, not consumed.
    pub fn current(&self) -> (r: Option<char>)
        requires
            self.wf(),
        ensures
            r == if self.rest().len() > 0 { Some(self.rest()[0]) } else { None::<char> },
    {
        self.current
    }

    /// The character `k` places ahead of the cursor, not consumed.
    pub fn peek(&self, k: usize) -> (r: Option<char>)
        requires
            self.wf(),
        ensures
            r == if k < self.rest().len() { Some(self.rest()[k as int]) } else { None::<char> },
    {
        if k < self.len - self.index {
            Some(self.input.get_char(self.index + k))
        } else {
            None
        }
    }

    /// Consumes and returns the next character, if any.
    pub fn shift(&mut self) -> (r: Option<char>)
        requires
            old(self).wf(),
        ensures
            final(self).wf(),
            final(self).text() == old(self).text(),
            r == if old(self).rest().len() > 0 { Some(old(self).rest()[0]) } else { None::<char> },
            final(self).pos() == if r is Some { old(self).pos() + 1 } else { old(self).pos() },
    {
        let ch = self.current;
        if ch.is_some() {
            self.index = self.index + 1;
            self.current = Self::char_at(self.input, self.index, self.len);
        }
        ch
    }

    /// How many characters are not yet consumed.
    pub fn rest_len(&self) -> (r: usize)
        requires
            self.wf(),
        ensures
            r == self.rest().len(),
    {
        self.len - self.index
    }

    /// Whether all of the text has been consumed.
    pub fn is_over(&self) -> (r: bool)
        requires
            self.wf(),
        ensures
            r == (self.rest().len() == 0),
    {
        self.index >= self.len
    }

    /// Whether the text not yet consumed begins with `s`.
    pub fn current_starts_with(&self, s: &str) -> (r: bool)
        requires
            self.wf(),
        ensures
            r == (s@.len() <= self.rest().len() && self.rest().take(s@.len() as int) == s@),
    {
        let n = s.unicode_len();
        if n > self.len - self.index {
            return false;
        }
        let mut i: usize = 0;
        while i < n
            invariant
                self.wf(),
                n == s@.len(),
                n <= self.len - self.index,
                i <= n,
                forall|j: int| 0 <= j < i ==> s@[j] == self.rest()[j],
            decreases n - i,
        {
            if s.get_char(i) != self.input.get_char(self.index + i) {
                assert(s@[i as int] != self.rest()[i as int]);
                assert(self.rest().take(n as int)[i as int] != s@[i as int]);
                return false;
            }
            i = i + 1;
        }
        assert(self.rest().take(n as int) =~= s@);
        true
    }

    /// Skips `n` characters, which the caller has seen to be there.
    pub fn advance_chars(&mut self, n: usize)
        requires
            old(self).wf(),
            n <= old(self).rest().len(),
        ensures
            final(self).wf(),
            final(self).text() == old(self).text(),
            final(self).pos() == old(self).pos() + n,
    {
        self.index = self.index + n;
        self.current = Self::char_at(self.input, self.index, self.len);
    }

    /// The number of bytes the next `k` characters take in UTF-8.
    pub fn prefix_bytes(&self, k: usize) -> (r: usize)
        requires
            self.wf(),
            k <= self.rest().len(),
        ensures
            r == encode_utf8(self.rest().take(k as int)).len(),
    {
        let sub = self.input.substring_char(self.index, self.index + k);
        assert(sub@ =~= self.rest().take(k as int));
        sub.as_bytes().len()
    }

    /// How many characters the next `n` bytes hold, where `n` ends on a
    /// character boundary.
    pub fn chars_in_bytes(&self, n: usize) -> (k: usize)
        requires
            self.wf(),
            exists|j: int| 0 <= j <= self.rest().len() && encode_utf8(self.rest().take(j)).len() == n,
        ensures
            k <= self.rest().len(),
            encode_utf8(self.rest().take(k as int)).len() == n,
            forall|j: int|
                0 <= j <= self.rest().len() && encode_utf8(self.rest().take(j)).len() == n ==> j == k,
    {
        let rest_len = self.len - self.index;
        let mut k: usize = 0;
        loop
            invariant
                self.wf(),
                rest_len == self.rest().len(),
                k <= rest_len,
                exists|j: int| 0 <= j <= self.rest().len() && encode_utf8(self.rest().take(j)).len() == n,
                forall|j: int| 0 <= j < k ==> encode_utf8(self.rest().take(j)).len() != n,
            decreases rest_len - k,
        {
            if self.prefix_bytes(k) == n {
                proof {
                    assert forall|j: int|
                        0 <= j <= self.rest().len() && encode_utf8(self.rest().take(j)).len() == n implies j
                        == k by {
                        if j > k {
                            lemma_prefix_bytes_increase(self.rest(), k as int, j);
                        }
                    }
                }
                return k;
            }
            if k == rest_len {
                proof {
                    let w = choose|j: int| 0 <= j <= self.rest().len() && encode_utf8(self.rest().take(j)).len() == n;
                    assert(w < k || w == k);
                }
                return k;
            }
            k = k + 1;
        }
    }

    /// Skips the next `n` bytes, which the caller has seen to end on a
    /// character boundary.
    pub fn advance_by(&mut self, n: usize)
        requires
            old(self).wf(),
            exists|j: int| 0 <= j <= old(self).rest().len() && encode_utf8(old(self).rest().take(j)).len() == n,
        ensures
            final(self).wf(),
            final(self).text() == old(self).text(),
            old(self).pos() <= final(self).pos() <= old(self).text().len(),
            encode_utf8(old(self).rest().take(final(self).pos() - old(self).pos())).len() == n,
    {
        let k = self.chars_in_bytes(n);
        self.advance_chars(k);
    }

    /// The text not yet consumed.
    pub fn remaining(&self) -> (r: &'a str)
        requires
            self.wf(),
        ensures
            r@ == self.rest(),
    {
        self.input.substring_char(self.index, self.len)
    }

    /// The next `n` characters as an owned string, not consumed.
    pub fn lookahead_text(&self, n: usize) -> (r: String)
        requires
            self.wf(),
            n <= self.rest().len(),
        ensures
            r@ == self.rest().take(n as int),
    {
        self.input.substring_char(self.index, self.index + n).to_owned()
    }
}

} // verus!
