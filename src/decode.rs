use vstd::prelude::*;
use vstd::utf8::*;

verus! {

/// The text that lossy UTF-8 decoding makes of `bytes`: each maximal invalid
/// sequence becomes one replacement character.
pub uninterp spec fn lossy_text(bytes: Seq<u8>) -> Seq<char>;

/// Relies on `String::from_utf8_lossy`: the text depends on the bytes alone,
/// and valid UTF-8 is decoded without replacement.
#[verifier::external_body]
fn decode_lossy(bytes: &[u8]) -> (r: String)
    ensures
        r@ == lossy_text(bytes@),
        valid_utf8(bytes@) ==> r@ == decode_utf8(bytes@),
{
    String::from_utf8_lossy(bytes).into_owned()
}

/// The number of bytes that the UTF-8 encoding starting with `lead` announces;
/// 1 for any byte that does not open a longer sequence.
pub open spec fn announced_width(lead: u8) -> int {
    if is_leading_byte_width_2(lead) {
        2
    } else if is_leading_byte_width_3(lead) {
        3
    } else if is_leading_byte_width_4(lead) {
        4
    } else {
        1
    }
}

/// The length of the unfinished encoding at the end of `b`: a leading byte
/// followed by fewer continuation bytes than it announces. Zero when `b` does
/// not end inside an encoding.
pub open spec fn unfinished_len(b: Seq<u8>) -> int {
    let n = b.len() as int;
    if n >= 1 && !is_continuation_byte(b[n - 1]) {
        if announced_width(b[n - 1]) > 1 { 1 } else { 0 }
    } else if n >= 2 && !is_continuation_byte(b[n - 2]) {
        if announced_width(b[n - 2]) > 2 { 2 } else { 0 }
    } else if n >= 3 && !is_continuation_byte(b[n - 3]) {
        if announced_width(b[n - 3]) > 3 { 3 } else { 0 }
    } else {
        0
    }
}

fn width_of(lead: u8) -> (r: usize)
    ensures
        r as int == announced_width(lead),
{
    if 0xc0 <= lead && lead <= 0xdf {
        2
    } else if 0xe0 <= lead && lead <= 0xef {
        3
    } else if 0xf0 <= lead && lead <= 0xf7 {
        4
    } else {
        1
    }
}

fn is_continuation(b: u8) -> (r: bool)
    ensures
        r == is_continuation_byte(b),
{
    0x80 <= b && b <= 0xbf
}

/// The length of the unfinished encoding at the end of `b`.
pub fn unfinished_tail(b: &[u8]) -> (r: usize)
    ensures
        r as int == unfinished_len(b@),
        r <= 3,
        r <= b@.len(),
{
    let n = b.len();
    if n >= 1 && !is_continuation(b[n - 1]) {
        if width_of(b[n - 1]) > 1 { 1 } else { 0 }
    } else if n >= 2 && !is_continuation(b[n - 2]) {
        if width_of(b[n - 2]) > 2 { 2 } else { 0 }
    } else if n >= 3 && !is_continuation(b[n - 3]) {
        if width_of(b[n - 3]) > 3 { 3 } else { 0 }
    } else {
        0
    }
}

proof fn lemma_no_four_continuations(s: Seq<u8>, k: int)
    requires
        valid_utf8(s),
        0 <= k,
        k + 4 <= s.len(),
    ensures
        !(is_continuation_byte(s[k]) && is_continuation_byte(s[k + 1]) && is_continuation_byte(
            s[k + 2],
        ) && is_continuation_byte(s[k + 3])),
    decreases s.len(),
{
    let l = length_of_first_scalar(s);
    let rest = pop_first_scalar(s);
    if k >= l {
        assert(rest[k - l] == s[k] && rest[k - l + 1] == s[k + 1]);
        assert(rest[k - l + 2] == s[k + 2] && rest[k - l + 3] == s[k + 3]);
        lemma_no_four_continuations(rest, k - l);
    } else if k > 0 && l < s.len() {
        assert(valid_first_scalar(s) && valid_utf8(rest));
        assert(rest.len() > 0);
        assert(rest[0] == s[l]);
        assert(valid_first_scalar(rest));
    }
}

proof fn lemma_scalar_at(s: Seq<u8>, i: int)
    requires
        valid_utf8(s),
        0 <= i < s.len(),
        !is_continuation_byte(s[i]),
    ensures
        i + announced_width(s[i]) <= s.len(),
        forall|j: int| 0 < j < announced_width(s[i]) ==> is_continuation_byte(#[trigger] s[i + j]),
        i + announced_width(s[i]) < s.len() ==> !is_continuation_byte(s[i + announced_width(s[i])]),
{
    is_char_boundary_iff_not_is_continuation_byte(s, i);
    valid_utf8_split(s, i);
    let t = s.subrange(i, s.len() as int);
    assert(valid_first_scalar(t));
    let l = length_of_first_scalar(t);
    assert(t[0] == s[i]);
    assert(l == announced_width(s[i]));
    assert forall|j: int| 0 < j < announced_width(s[i]) implies is_continuation_byte(#[trigger] s[i + j]) by {
        assert(t[j] == s[i + j]);
    }
    if l < t.len() {
        assert(is_char_boundary(t, l)) by {
            is_char_boundary_start_end_of_seq(pop_first_scalar(t));
        }
        is_char_boundary_iff_not_is_continuation_byte(t, l);
        assert(t[l] == s[i + l]);
    }
}

proof fn lemma_cut_is_boundary(s: Seq<u8>, n: int)
    requires
        valid_utf8(s),
        0 <= n <= s.len(),
    ensures
        is_char_boundary(s, n - unfinished_len(s.subrange(0, n))),
        n == s.len() ==> unfinished_len(s.subrange(0, n)) == 0,
{
    let a = s.subrange(0, n);
    is_char_boundary_start_end_of_seq(s);
    if n < s.len() {
        is_char_boundary_iff_not_is_continuation_byte(s, n);
    }
    if n == 0 {
        return;
    }
    is_char_boundary_iff_not_is_continuation_byte(s, 0);
    assert(a[n - 1] == s[n - 1]);
    if !is_continuation_byte(s[n - 1]) {
        let i = n - 1;
        lemma_scalar_at(s, i);
        is_char_boundary_iff_not_is_continuation_byte(s, i);
    } else if n >= 2 && !is_continuation_byte(s[n - 2]) {
        let i = n - 2;
        assert(a[n - 2] == s[n - 2]);
        lemma_scalar_at(s, i);
        is_char_boundary_iff_not_is_continuation_byte(s, i);
    } else if n >= 3 && !is_continuation_byte(s[n - 3]) {
        let i = n - 3;
        assert(a[n - 2] == s[n - 2] && a[n - 3] == s[n - 3]);
        lemma_scalar_at(s, i);
        if announced_width(s[i]) == 2 {
            assert(s[i + 2] == s[n - 1]);
        }
        is_char_boundary_iff_not_is_continuation_byte(s, i);
    } else {
        assert(n >= 2 ==> a[n - 2] == s[n - 2]);
        assert(n >= 3 ==> a[n - 3] == s[n - 3]);
        assert(n >= 4);
        if is_continuation_byte(s[n - 4]) {
            lemma_no_four_continuations(s, n - 4);
        }
        let i = n - 4;
        lemma_scalar_at(s, i);
        if announced_width(s[i]) == 2 {
            assert(s[i + 2] == s[n - 2]);
        }
        if announced_width(s[i]) == 3 {
            assert(s[i + 3] == s[n - 1]);
        }
    }
}

/// Decoding a valid UTF-8 stream in pieces loses nothing: the text of the
/// bytes that a piece `a` releases, followed by the text of the bytes held
/// back and of all that follows, is the text of the whole stream.
pub proof fn lemma_pieces_decode_as_whole(a: Seq<u8>, b: Seq<u8>)
    requires
        valid_utf8(a + b),
    ensures
        ({
            let cut = a.len() - unfinished_len(a);
            &&& valid_utf8(a.subrange(0, cut))
            &&& valid_utf8(a.subrange(cut, a.len() as int) + b)
            &&& decode_utf8(a.subrange(0, cut)) + decode_utf8(a.subrange(cut, a.len() as int) + b)
                == decode_utf8(a + b)
        }),
{
    let s = a + b;
    assert(s.subrange(0, a.len() as int) =~= a);
    lemma_cut_is_boundary(s, a.len() as int);
    let cut = a.len() - unfinished_len(a);
    valid_utf8_split(s, cut);
    decode_utf8_split(s, cut);
    assert(s.subrange(0, cut) =~= a.subrange(0, cut));
    assert(s.subrange(cut, s.len() as int) =~= a.subrange(cut, a.len() as int) + b);
}

/// A complete valid UTF-8 stream ends no encoding early: nothing of it is
/// held back.
pub proof fn lemma_valid_stream_holds_nothing_back(s: Seq<u8>)
    requires
        valid_utf8(s),
    ensures
        unfinished_len(s) == 0,
{
    assert(s.subrange(0, s.len() as int) =~= s);
    lemma_cut_is_boundary(s, s.len() as int);
}

/// Decodes a byte stream that arrives in chunks. Bytes that end a chunk in the
/// middle of an encoding are held back and decoded with the next chunk.
pub struct Utf8Stream {
    pending: Vec<u8>,
}

impl Utf8Stream {
    /// The bytes held back from the chunks fed so far.
    pub closed spec fn pending(&self) -> Seq<u8> {
        self.pending@
    }

    pub closed spec fn wf(&self) -> bool {
        self.pending@.len() <= 3
    }

    /// A decoder that holds nothing back.
    pub fn new() -> (r: Utf8Stream)
        ensures
            r.wf(),
            r.pending() == Seq::<u8>::empty(),
    {
        Utf8Stream { pending: Vec::new() }
    }

    /// The bytes held back from the chunks fed so far.
    pub fn pending_bytes(&self) -> (r: Vec<u8>)
        ensures
            r@ == self.pending(),
    {
        self.pending.clone()
    }

    /// Decodes `chunk` after the bytes held back so far, and holds back the
    /// unfinished encoding that ends the whole, if any.
    pub fn feed(&mut self, chunk: &[u8]) -> (r: String)
        requires
            old(self).wf(),
        ensures
            final(self).wf(),
            ({
                let all = old(self).pending() + chunk@;
                let cut = all.len() - unfinished_len(all);
                &&& r@ == lossy_text(all.subrange(0, cut))
                &&& valid_utf8(all.subrange(0, cut)) ==> r@ == decode_utf8(all.subrange(0, cut))
                &&& final(self).pending() == all.subrange(cut, all.len() as int)
            }),
    {
        let mut all: Vec<u8> = self.pending.clone();
        assert(all@ == self.pending@);
        let ghost start = all@;
        let mut i: usize = 0;
        while i < chunk.len()
            invariant
                i <= chunk@.len(),
                all@ == start + chunk@.subrange(0, i as int),
            decreases chunk@.len() - i,
        {
            all.push(chunk[i]);
            i = i + 1;
            assert(all@ =~= start + chunk@.subrange(0, i as int));
        }
        assert(chunk@.subrange(0, chunk@.len() as int) =~= chunk@);
        let tail = unfinished_tail(all.as_slice());
        let cut = all.len() - tail;
        let rest = all.split_off(cut);
        let text = decode_lossy(all.as_slice());
        self.pending = rest;
        text
    }

    /// Decodes what is still held back, at the end of the stream, and holds
    /// nothing back after it.
    pub fn finish(&mut self) -> (r: String)
        ensures
            r@ == lossy_text(old(self).pending()),
            valid_utf8(old(self).pending()) ==> r@ == decode_utf8(old(self).pending()),
            final(self).wf(),
            final(self).pending() == Seq::<u8>::empty(),
    {
        let text = decode_lossy(self.pending.as_slice());
        self.pending = Vec::new();
        text
    }
}

} // verus!
