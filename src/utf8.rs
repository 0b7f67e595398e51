use vstd::prelude::*;
use vstd::utf8::{decode_utf8, valid_utf8};

verus! {

/// Relies on `std::str::from_utf8`: it succeeds exactly on valid UTF-8, and the
/// string it returns holds the same bytes.
#[verifier::external_body]
fn utf8_text(bytes: &[u8]) -> (r: Option<String>)
    ensures
        r is Some <==> valid_utf8(bytes@),
        r matches Some(s) ==> s@ == decode_utf8(bytes@),
{
    match std::str::from_utf8(bytes) {
        Ok(s) => Some(s.to_owned()),
        Err(_) => None,
    }
}

/// The length of the longest prefix of `b` that is valid UTF-8 and leaves at most
/// three bytes behind (the most that an unfinished character can take), or -1 if
/// there is none.
pub open spec fn complete_prefix_len(b: Seq<u8>) -> int {
    if valid_utf8(b) {
        b.len() as int
    } else if b.len() >= 1 && valid_utf8(b.take(b.len() - 1)) {
        b.len() - 1
    } else if b.len() >= 2 && valid_utf8(b.take(b.len() - 2)) {
        b.len() - 2
    } else if b.len() >= 3 && valid_utf8(b.take(b.len() - 3)) {
        b.len() - 3
    } else {
        -1
    }
}

/// What a buffer that starts empty does with `chunks`, pushed one by one: the
/// text it releases (concatenated), and the bytes it holds back at the end.
pub open spec fn utf8_pieces(chunks: Seq<Seq<u8>>) -> (Seq<char>, Seq<u8>)
    decreases chunks.len(),
{
    if chunks.len() == 0 {
        (Seq::empty(), Seq::empty())
    } else {
        let prev = utf8_pieces(chunks.drop_last());
        let b = prev.1 + chunks.last();
        let j = complete_prefix_len(b);
        if j > 0 {
            (prev.0 + decode_utf8(b.take(j)), b.skip(j))
        } else {
            (prev.0, b)
        }
    }
}

/// The text released when `chunks` are pushed one by one into an empty buffer.
pub open spec fn utf8_text_of(chunks: Seq<Seq<u8>>) -> Seq<char> {
    utf8_pieces(chunks).0
}

/// Collects the raw bytes of tokens until they form complete UTF-8 characters.
pub struct TokenUtf8Buffer {
    pending: Vec<u8>,
}

impl TokenUtf8Buffer {
    /// The bytes held back, waiting for the rest of a character.
    pub closed spec fn pending(&self) -> Seq<u8> {
        self.pending@
    }

    /// An empty buffer.
    pub fn new() -> (r: TokenUtf8Buffer)
        ensures
            r.pending() == Seq::<u8>::empty(),
    {
        TokenUtf8Buffer { pending: Vec::new() }
    }

    /// Appends `token` and returns the text of the longest complete prefix, if it is
    /// not empty; the bytes after it stay in the buffer.
    pub fn push(&mut self, token: &[u8]) -> (r: Option<String>)
        ensures
            ({
                let b = old(self).pending() + token@;
                let j = complete_prefix_len(b);
                if j > 0 {
                    &&& r is Some
                    &&& r.unwrap()@ == decode_utf8(b.take(j))
                    &&& final(self).pending() == b.skip(j)
                } else {
                    &&& r is None
                    &&& final(self).pending() == b
                }
            }),
    {
        let mut i: usize = 0;
        while i < token.len()
            invariant
                i <= token@.len(),
                self.pending@ == old(self).pending@ + token@.take(i as int),
            decreases token.len() - i,
        {
            self.pending.push(token[i]);
            i = i + 1;
            proof {
                assert(self.pending@ == old(self).pending@ + token@.take(i as int));
            }
        }
        proof {
            assert(token@.take(token@.len() as int) == token@);
        }
        let ghost b = self.pending@;
        let n = self.pending.len();
        let mut back: usize = 0;
        while back <= 3 && back <= n
            invariant
                n == b.len(),
                self.pending@ == b,
                b == old(self).pending() + token@,
                back > 0 ==> !valid_utf8(b.take(n as int)),
                back > 1 ==> !valid_utf8(b.take(n - 1)),
                back > 2 ==> !valid_utf8(b.take(n - 2)),
                back > 3 ==> !valid_utf8(b.take(n - 3)),
            decreases 4 - back,
        {
            let j = n - back;
            match utf8_text(&self.pending.as_slice()[0..j]) {
                Some(text) => {
                    proof {
                        assert(b.subrange(0, j as int) == b.take(j as int));
                        assert(b.take(n as int) == b);
                        assert(complete_prefix_len(b) == j);
                    }
                    if j == 0 {
                        return None;
                    }
                    let mut rest: Vec<u8> = Vec::new();
                    let mut k: usize = j;
                    while k < n
                        invariant
                            j <= k <= n,
                            n == b.len(),
                            self.pending@ == b,
                            rest@ == b.subrange(j as int, k as int),
                        decreases n - k,
                    {
                        rest.push(self.pending[k]);
                        k = k + 1;
                        proof {
                            assert(rest@ == b.subrange(j as int, k as int));
                        }
                    }
                    proof {
                        assert(b.subrange(j as int, n as int) == b.skip(j as int));
                    }
                    self.pending = rest;
                    return Some(text);
                },
                None => {
                    proof {
                        assert(b.subrange(0, j as int) == b.take(j as int));
                    }
                },
            }
            back = back + 1;
        }
        proof {
            assert(b.take(n as int) == b);
            assert(complete_prefix_len(b) == -1);
        }
        None
    }
}

} // verus!
