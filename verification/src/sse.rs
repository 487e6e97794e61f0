//! Reassembling `data:` payload lines from raw server-sent-event chunks,
//! whose boundaries can fall anywhere, even inside a multi-byte character.

use vstd::prelude::*;
use crate::text::{chars_of, string_of};

verus! {

broadcast use vstd::string::group_string_axioms;

/// What `String::from_utf8_lossy` decodes bytes to.
pub uninterp spec fn utf8_lossy(bytes: Seq<u8>) -> Seq<char>;

/// `String::from_utf8_lossy`: valid UTF-8 decodes exactly, anything else
/// with replacement characters. The contract claims the result is the one
/// `utf8_lossy` names, and that on valid UTF-8 it is the decoded text.
#[verifier::external_body]
pub(crate) fn decode_lossy(bytes: &[u8]) -> (r: String)
    ensures
        r@ == utf8_lossy(bytes@),
        vstd::utf8::valid_utf8(bytes@) ==> r@ == vstd::utf8::decode_utf8(bytes@),
{
    String::from_utf8_lossy(bytes).into_owned()
}

/// The index of the first newline byte, if there is one.
pub open spec fn first_nl(b: Seq<u8>) -> Option<int>
    decreases b.len(),
{
    if b.len() == 0 {
        None
    } else if b[0] == 10 {
        Some(0)
    } else {
        match first_nl(b.drop_first()) {
            Some(i) => Some(i + 1),
            None => None,
        }
    }
}

/// The complete lines in `b`, each with its newline.
pub open spec fn lines_of(b: Seq<u8>) -> Seq<Seq<u8>>
    decreases b.len(),
{
    match first_nl(b) {
        Some(i) => if 0 <= i < b.len() {
            seq![b.take(i + 1)] + lines_of(b.skip(i + 1))
        } else {
            Seq::empty()
        },
        None => Seq::empty(),
    }
}

/// What is left of `b` after its last newline: a line still incomplete.
pub open spec fn rest_of(b: Seq<u8>) -> Seq<u8>
    decreases b.len(),
{
    match first_nl(b) {
        Some(i) => if 0 <= i < b.len() {
            rest_of(b.skip(i + 1))
        } else {
            b
        },
        None => b,
    }
}

/// `str::trim_end_matches(['\n', '\r'])`.
pub open spec fn trim_eol(s: Seq<char>) -> Seq<char>
    decreases s.len(),
{
    if s.len() > 0 && (s.last() == '\n' || s.last() == '\r') {
        trim_eol(s.drop_last())
    } else {
        s
    }
}

/// The payload of a `data:` line, without one optional leading space; `None`
/// for any other line.
pub open spec fn data_of(line: Seq<u8>) -> Option<Seq<char>> {
    let s = trim_eol(utf8_lossy(line));
    if "data:"@.is_prefix_of(s) {
        let d = s.skip(5);
        if d.len() > 0 && d[0] == ' ' {
            Some(d.skip(1))
        } else {
            Some(d)
        }
    } else {
        None
    }
}

/// The payloads of the `data:` lines among `lines`, in order.
pub open spec fn payloads(lines: Seq<Seq<u8>>) -> Seq<Seq<char>>
    decreases lines.len(),
{
    if lines.len() == 0 {
        Seq::empty()
    } else {
        let rest = payloads(lines.drop_last());
        match data_of(lines.last()) {
            Some(d) => rest.push(d),
            None => rest,
        }
    }
}

pub open spec fn string_views(v: Seq<String>) -> Seq<Seq<char>> {
    v.map_values(|s: String| s@)
}

/// Buffers raw bytes and hands out each complete `data:` line.
pub struct SseLineBuffer {
    buf: Vec<u8>,
}

impl View for SseLineBuffer {
    type V = Seq<u8>;

    /// The bytes of the line still incomplete.
    closed spec fn view(&self) -> Seq<u8> {
        self.buf@
    }
}

pub proof fn lemma_first_nl(b: Seq<u8>)
    ensures
        match first_nl(b) {
            Some(i) => 0 <= i < b.len() && b[i] == 10 && forall|k: int| 0 <= k < i ==> b[k] != 10,
            None => forall|k: int| 0 <= k < b.len() ==> b[k] != 10,
        },
    decreases b.len(),
{
    if b.len() > 0 && b[0] != 10 {
        lemma_first_nl(b.drop_first());
        match first_nl(b.drop_first()) {
            Some(i) => {
                assert forall|k: int| 0 <= k < i + 1 implies b[k] != 10 by {
                    if k > 0 {
                        assert(b[k] == b.drop_first()[k - 1]);
                    }
                }
            },
            None => {
                assert forall|k: int| 0 <= k < b.len() implies b[k] != 10 by {
                    if k > 0 {
                        assert(b[k] == b.drop_first()[k - 1]);
                    }
                }
            },
        }
    }
}

/// A newline at `i` with none before it is the first newline.
pub proof fn lemma_first_nl_at(b: Seq<u8>, i: int)
    requires
        0 <= i < b.len(),
        b[i] == 10,
        forall|k: int| 0 <= k < i ==> b[k] != 10,
    ensures
        first_nl(b) == Some(i),
{
    lemma_first_nl(b);
    match first_nl(b) {
        Some(j) => {
            if j < i {
                assert(b[j] != 10);
            }
            if j > i {
                assert(b[i] != 10);
            }
        },
        None => {
            assert(b[i] != 10);
        },
    }
}

fn trim_eol_chars(cs: &Vec<char>) -> (r: usize)
    ensures
        r <= cs@.len(),
        cs@.take(r as int) == trim_eol(cs@),
{
    let mut n: usize = cs.len();
    assert(cs@.take(n as int) =~= cs@);
    while n > 0 && (cs[n - 1] == '\n' || cs[n - 1] == '\r')
        invariant
            n <= cs@.len(),
            trim_eol(cs@) == trim_eol(cs@.take(n as int)),
        decreases n,
    {
        assert(cs@.take(n as int).drop_last() =~= cs@.take(n - 1));
        n = n - 1;
    }
    n
}

/// The payload of one complete line, if it is a `data:` line.
fn line_payload(line: &[u8]) -> (r: Option<String>)
    ensures
        match r {
            Some(s) => data_of(line@) == Some(s@),
            None => data_of(line@) is None,
        },
{
    let decoded = decode_lossy(line);
    let cs = chars_of(decoded.as_str());
    let n = trim_eol_chars(&cs);
    let ghost s = trim_eol(utf8_lossy(line@));
    assert(cs@.take(n as int) == s);
    let prefix: [char; 5] = ['d', 'a', 't', 'a', ':'];
    proof {
        reveal_strlit("data:");
        assert("data:"@ =~= prefix@);
    }
    if n < 5 || cs[0] != 'd' || cs[1] != 'a' || cs[2] != 't' || cs[3] != 'a' || cs[4] != ':' {
        proof {
            if "data:"@.is_prefix_of(s) {
                assert(s[0] == 'd' && s[1] == 'a' && s[2] == 't' && s[3] == 'a' && s[4] == ':');
            }
        }
        return None;
    }
    assert("data:"@ =~= s.take(5));
    let start: usize = if n > 5 && cs[5] == ' ' { 6 } else { 5 };
    let out = string_of(&cs.as_slice()[start..n]);
    proof {
        let d = s.skip(5);
        if start == 6 {
            assert(cs@.subrange(6, n as int) =~= d.skip(1));
        } else {
            assert(cs@.subrange(5, n as int) =~= d);
        }
    }
    Some(out)
}

impl SseLineBuffer {
    pub fn new() -> (r: Self)
        ensures
            r@ == Seq::<u8>::empty(),
    {
        SseLineBuffer { buf: Vec::new() }
    }

    /// How many bytes of an unfinished line are held.
    pub fn pending_len(&self) -> (r: usize)
        ensures
            r == self@.len(),
    {
        self.buf.len()
    }

    /// Adds a chunk and returns the payload of every `data:` line it
    /// completed, in order; other fields are ignored, line endings (`\n` or
    /// `\r\n`) stripped, and an unfinished line is kept for the next chunk.
    pub fn push(&mut self, chunk: &[u8]) -> (r: Vec<String>)
        ensures
            final(self)@ == rest_of(old(self)@ + chunk@),
            string_views(r@) == payloads(lines_of(old(self)@ + chunk@)),
    {
        let mut data: Vec<u8> = Vec::new();
        let mut k: usize = 0;
        while k < self.buf.len()
            invariant
                k <= self.buf.len(),
                data@ == self.buf@.take(k as int),
            decreases self.buf.len() - k,
        {
            data.push(self.buf[k]);
            assert(self.buf@.take(k + 1) =~= self.buf@.take(k as int).push(self.buf@[k as int]));
            k = k + 1;
        }
        let mut k: usize = 0;
        let ghost base = data@;
        assert(self.buf@.take(self.buf@.len() as int) =~= self.buf@);
        while k < chunk.len()
            invariant
                k <= chunk.len(),
                base == old(self)@,
                data@ == base + chunk@.take(k as int),
            decreases chunk.len() - k,
        {
            data.push(chunk[k]);
            assert(base + chunk@.take(k + 1) =~= (base + chunk@.take(k as int)).push(chunk@[k as int]));
            k = k + 1;
        }
        assert(chunk@.take(chunk@.len() as int) =~= chunk@);
        let ghost all = data@;
        let mut out: Vec<String> = Vec::new();
        let mut start: usize = 0;
        let mut i: usize = 0;
        let ghost mut done: Seq<Seq<u8>> = Seq::empty();
        assert(all.skip(0) =~= all);
        while i < data.len()
            invariant
                data@ == all,
                start <= i <= data.len(),
                lines_of(all) == done + lines_of(all.skip(start as int)),
                rest_of(all) == rest_of(all.skip(start as int)),
                string_views(out@) == payloads(done),
                forall|k: int| start <= k < i ==> all[k] != 10,
            decreases data.len() - i,
        {
            if data[i] == 10 {
                let ghost tail = all.skip(start as int);
                proof {
                    assert forall|k: int| 0 <= k < i - start implies tail[k] != 10 by {
                        assert(tail[k] == all[start + k]);
                    }
                    lemma_first_nl_at(tail, i - start);
                    assert(tail.skip(i - start + 1) =~= all.skip(i + 1));
                    assert(tail.take(i - start + 1) =~= all.subrange(start as int, i + 1));
                }
                let line = &data.as_slice()[start..i + 1];
                let p = line_payload(line);
                proof {
                    assert(done.push(all.subrange(start as int, i + 1)).drop_last() =~= done);
                    assert(done + lines_of(tail) =~= done.push(all.subrange(start as int, i + 1)) + lines_of(
                        all.skip(i + 1),
                    ));
                }
                match p {
                    Some(s) => {
                        proof {
                            assert(string_views(out@.push(s)) =~= string_views(out@).push(s@));
                        }
                        out.push(s);
                    },
                    None => {},
                }
                proof {
                    done = done.push(all.subrange(start as int, i + 1));
                }
                start = i + 1;
            }
            i = i + 1;
        }
        let ghost tail = all.skip(start as int);
        proof {
            lemma_first_nl(tail);
            assert forall|k: int| 0 <= k < tail.len() implies tail[k] != 10 by {
                assert(tail[k] == all[start + k]);
            }
            assert(first_nl(tail) is None);
            assert(done + lines_of(tail) =~= done);
        }
        let mut rest: Vec<u8> = Vec::new();
        let mut k: usize = start;
        while k < data.len()
            invariant
                start <= k <= data.len(),
                data@ == all,
                rest@ == all.subrange(start as int, k as int),
            decreases data.len() - k,
        {
            rest.push(data[k]);
            assert(all.subrange(start as int, k + 1) =~= all.subrange(start as int, k as int).push(all[k as int]));
            k = k + 1;
        }
        assert(rest@ =~= tail);
        self.buf = rest;
        out
    }
}

} // verus!

verus! {

proof fn lemma_lines_concat(a: Seq<u8>, b: Seq<u8>)
    ensures
        lines_of(a + b) == lines_of(a) + lines_of(rest_of(a) + b),
        rest_of(a + b) == rest_of(rest_of(a) + b),
    decreases a.len(),
{
    lemma_first_nl(a);
    match first_nl(a) {
        Some(i) => {
            assert forall|k: int| 0 <= k < i implies (a + b)[k] != 10 by {
                assert((a + b)[k] == a[k]);
            }
            lemma_first_nl_at(a + b, i);
            assert((a + b).skip(i + 1) =~= a.skip(i + 1) + b);
            assert((a + b).take(i + 1) =~= a.take(i + 1));
            lemma_lines_concat(a.skip(i + 1), b);
            assert(seq![a.take(i + 1)] + (lines_of(a.skip(i + 1)) + lines_of(rest_of(a.skip(i + 1)) + b))
                =~= (seq![a.take(i + 1)] + lines_of(a.skip(i + 1))) + lines_of(rest_of(a.skip(i + 1)) + b));
        },
        None => {
            assert(lines_of(a) =~= Seq::<Seq<u8>>::empty());
            assert(lines_of(a) + lines_of(rest_of(a) + b) =~= lines_of(a + b));
        },
    }
}

proof fn lemma_payloads_concat(x: Seq<Seq<u8>>, y: Seq<Seq<u8>>)
    ensures
        payloads(x + y) == payloads(x) + payloads(y),
    decreases y.len(),
{
    if y.len() == 0 {
        assert(x + y =~= x);
        assert(payloads(x) + payloads(y) =~= payloads(x));
    } else {
        lemma_payloads_concat(x, y.drop_last());
        assert((x + y).drop_last() =~= x + y.drop_last());
        assert((x + y).last() == y.last());
        match data_of(y.last()) {
            Some(d) => {
                assert(payloads(x) + payloads(y) =~= (payloads(x) + payloads(y.drop_last())).push(d));
            },
            None => {},
        }
    }
}

/// Where a stream is cut into chunks makes no difference: pushing two
/// chunks one after the other hands out the same payloads, and leaves the
/// same unfinished line, as pushing them as one chunk.
pub proof fn law_chunk_boundaries_are_invisible(buffered: Seq<u8>, first: Seq<u8>, second: Seq<u8>)
    ensures
        payloads(lines_of(buffered + first)) + payloads(lines_of(rest_of(buffered + first) + second))
            == payloads(lines_of(buffered + first + second)),
        rest_of(rest_of(buffered + first) + second) == rest_of(buffered + first + second),
{
    lemma_lines_concat(buffered + first, second);
    lemma_payloads_concat(lines_of(buffered + first), lines_of(rest_of(buffered + first) + second));
}

} // verus!
