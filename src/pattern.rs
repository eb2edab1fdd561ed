use vstd::prelude::*;

verus! {

/// A byte pattern with a parallel mask: `mask[j]` is true where byte `j` must
/// match exactly and false where position `j` is a wildcard.
#[derive(Debug, Hash, PartialEq, Eq, PartialOrd, Ord, Default, Clone)]
pub struct Signature {
    pub bytes: Vec<u8>,
    pub mask: Vec<bool>,
}

impl Signature {
    /// Bytes and mask run in parallel.
    pub open spec fn wf(&self) -> bool {
        self.bytes@.len() == self.mask@.len()
    }
}

/// The characters that `char::is_whitespace` accepts (Unicode White_Space).
pub open spec fn is_space(c: char) -> bool {
    let u = c as u32;
    (0x09 <= u <= 0x0D) || u == 0x20 || u == 0x85 || u == 0xA0 || u == 0x1680 || (0x2000 <= u
        <= 0x200A) || u == 0x2028 || u == 0x2029 || u == 0x202F || u == 0x205F || u == 0x3000
}

/// Value of a base-16 digit.
pub open spec fn hex_digit(c: char) -> Option<nat> {
    let u = c as u32;
    if 0x30 <= u <= 0x39 {
        Some((u - 0x30) as nat)
    } else if 0x41 <= u <= 0x46 {
        Some((u - 0x41 + 10) as nat)
    } else if 0x61 <= u <= 0x66 {
        Some((u - 0x61 + 10) as nat)
    } else {
        None
    }
}

/// Value of a run of base-16 digits, most significant first; `None` if any
/// character is not a digit.
pub open spec fn hex_value(d: Seq<char>) -> Option<nat>
    decreases d.len(),
{
    if d.len() == 0 {
        Some(0)
    } else {
        match (hex_value(d.drop_last()), hex_digit(d.last())) {
            (Some(v), Some(x)) => Some(v * 16 + x),
            _ => None,
        }
    }
}

/// A byte written in base 16, as `u8::from_str_radix(_, 16)` reads it: an
/// optional `+`, then at least one digit, and a value below 256.
pub open spec fn hex_byte(s: Seq<char>) -> Option<u8> {
    let d = if s.len() > 0 && s[0] == '+' {
        s.drop_first()
    } else {
        s
    };
    if d.len() == 0 {
        None
    } else {
        match hex_value(d) {
            Some(v) => if v < 256 {
                Some(v as u8)
            } else {
                None
            },
            None => None,
        }
    }
}

/// A pattern item that is a wildcard in space-delimited notation.
pub open spec fn is_wild_token(t: Seq<char>) -> bool {
    t.contains('?')
}

/// Length of the leading run of non-space characters.
pub open spec fn word_len(s: Seq<char>) -> nat
    decreases s.len(),
{
    if s.len() == 0 || is_space(s[0]) {
        0
    } else {
        1 + word_len(s.drop_first())
    }
}

/// The whitespace-separated words of `s`, in order.
pub open spec fn words(s: Seq<char>) -> Seq<Seq<char>>
    decreases s.len(),
    via words_decreases
{
    if s.len() == 0 {
        seq![]
    } else if is_space(s[0]) {
        words(s.drop_first())
    } else {
        let n = word_len(s) as int;
        seq![s.take(n)] + words(s.skip(n))
    }
}

#[via_fn]
proof fn words_decreases(s: Seq<char>) {
    if s.len() > 0 && !is_space(s[0]) {
        lemma_word_len_bound(s);
        assert(word_len(s) > 0);
    }
}

/// The pieces of `s` between occurrences of the two characters `\x`, with
/// `cur` prepended to the first piece.
pub open spec fn escape_pieces(s: Seq<char>, cur: Seq<char>) -> Seq<Seq<char>>
    decreases s.len(),
{
    if s.len() >= 2 && s[0] == '\\' && s[1] == 'x' {
        seq![cur] + escape_pieces(s.skip(2), seq![])
    } else if s.len() == 0 {
        seq![cur]
    } else {
        escape_pieces(s.drop_first(), cur.push(s[0]))
    }
}

/// The escapes of `s` in escaped-hex notation: what follows each `\x`.
pub open spec fn escapes(s: Seq<char>) -> Seq<Seq<char>> {
    escape_pieces(s, seq![]).drop_first()
}

/// Byte and mask entry of one space-delimited token: a token holding `?` is a
/// wildcard; any other is an exact byte.
pub open spec fn ida_entry(t: Seq<char>) -> (u8, bool) {
    if is_wild_token(t) {
        (0, false)
    } else {
        (hex_byte(t).unwrap_or(0), true)
    }
}

/// Byte and mask entry of one escape. The escape `00` is a wildcard, so a
/// zero byte cannot be matched exactly in this notation; an escape that does
/// not read as a byte becomes an exact zero rather than an error.
pub open spec fn code_entry(t: Seq<char>) -> (u8, bool) {
    if t == seq!['0', '0'] {
        (0, false)
    } else {
        (hex_byte(t).unwrap_or(0), true)
    }
}

/// Every token of `s` is a wildcard or a byte in base 16.
pub open spec fn ida_well_formed(s: Seq<char>) -> bool {
    forall|k: int|
        0 <= k < words(s).len() ==> is_wild_token(#[trigger] words(s)[k]) || hex_byte(
            words(s)[k],
        ) is Some
}

/// Bytes of a sequence of space-delimited tokens.
pub open spec fn ida_bytes_of(ts: Seq<Seq<char>>) -> Seq<u8> {
    ts.map_values(|t: Seq<char>| ida_entry(t).0)
}

/// Mask of a sequence of space-delimited tokens.
pub open spec fn ida_mask_of(ts: Seq<Seq<char>>) -> Seq<bool> {
    ts.map_values(|t: Seq<char>| ida_entry(t).1)
}

/// Bytes of a sequence of escapes.
pub open spec fn code_bytes_of(ts: Seq<Seq<char>>) -> Seq<u8> {
    ts.map_values(|t: Seq<char>| code_entry(t).0)
}

/// Mask of a sequence of escapes.
pub open spec fn code_mask_of(ts: Seq<Seq<char>>) -> Seq<bool> {
    ts.map_values(|t: Seq<char>| code_entry(t).1)
}

/// Bytes compiled from space-delimited notation.
pub open spec fn ida_bytes(s: Seq<char>) -> Seq<u8> {
    ida_bytes_of(words(s))
}

/// Mask compiled from space-delimited notation.
pub open spec fn ida_mask(s: Seq<char>) -> Seq<bool> {
    ida_mask_of(words(s))
}

/// Bytes compiled from escaped-hex notation.
pub open spec fn code_bytes(s: Seq<char>) -> Seq<u8> {
    code_bytes_of(escapes(s))
}

/// Mask compiled from escaped-hex notation.
pub open spec fn code_mask(s: Seq<char>) -> Seq<bool> {
    code_mask_of(escapes(s))
}

/// Creates a `Signature` from a pattern in space-delimited notation, such as
/// `"FF ?? 0A ?? CC CC CC 0A"`: one entry per whitespace-separated token.
/// Every token must hold a `?` or read as a byte in base 16.
pub fn ida(sig: &str) -> (r: Signature)
    requires
        ida_well_formed(sig@),
    ensures
        r.wf(),
        r.bytes@ == ida_bytes(sig@),
        r.mask@ == ida_mask(sig@),
{
    let cs = chars_of(sig);
    let n = cs.len();
    let mut bytes: Vec<u8> = Vec::new();
    let mut mask: Vec<bool> = Vec::new();
    let ghost done: Seq<Seq<char>> = seq![];
    let mut i: usize = 0;
    assert(sig@.skip(0) =~= sig@);
    assert(done + words(sig@) =~= words(sig@));
    while i < n
        invariant
            n == cs@.len(),
            cs@ == sig@,
            i <= n,
            words(sig@) == done + words(sig@.skip(i as int)),
            bytes@ == ida_bytes_of(done),
            mask@ == ida_mask_of(done),
        decreases n - i,
    {
        if space(cs[i]) {
            assert(sig@.skip(i as int).drop_first() =~= sig@.skip(i + 1));
            i += 1;
        } else {
            let mut j: usize = i;
            while j < n && !space(cs[j])
                invariant
                    i <= j <= n,
                    n == cs@.len(),
                    cs@ == sig@,
                    word_len(sig@.skip(i as int)) == (j - i) + word_len(sig@.skip(j as int)),
                decreases n - j,
            {
                proof {
                    lemma_word_len_step(sig@, j as int);
                }
                j += 1;
            }
            let ghost rest = sig@.skip(i as int);
            let ghost tok = sig@.subrange(i as int, j as int);
            proof {
                lemma_word_len_step(sig@, i as int);
                lemma_word_len_bound(rest);
                assert(rest.take((j - i) as int) =~= tok);
                assert(rest.skip((j - i) as int) =~= sig@.skip(j as int));
                assert(words(rest) == seq![tok] + words(sig@.skip(j as int)));
            }
            let (b, m) = ida_item(&cs, i, j);
            bytes.push(b);
            mask.push(m);
            proof {
                assert(done.push(tok) + words(sig@.skip(j as int)) =~= done + words(rest));
                done = done.push(tok);
                assert(bytes@ =~= ida_bytes_of(done));
                assert(mask@ =~= ida_mask_of(done));
            }
            i = j;
        }
    }
    assert(words(sig@.skip(n as int)) =~= seq![]);
    assert(done + seq![] =~= done);
    Signature { bytes, mask }
}

/// Creates a `Signature` from a pattern in escaped-hex notation, such as
/// `"\x03\x00\xFF\x0A"`: one entry per `\x`, whatever precedes the first
/// one is ignored.
///
/// The two notations disagree in two ways, kept as they are rather than
/// guessed at: here `\x00` is a wildcard, so an exact zero byte cannot be
/// written, and an escape that does not read as a byte becomes an exact zero
/// instead of being refused as a bad token is refused by `ida`.
pub fn code(sig: &str) -> (r: Signature)
    ensures
        r.wf(),
        r.bytes@ == code_bytes(sig@),
        r.mask@ == code_mask(sig@),
{
    let cs = chars_of(sig);
    let n = cs.len();
    let mut bytes: Vec<u8> = Vec::new();
    let mut mask: Vec<bool> = Vec::new();
    let ghost done: Seq<Seq<char>> = seq![];
    let mut seen = false;
    let mut start: usize = 0;
    let mut i: usize = 0;
    assert(sig@.skip(0) =~= sig@);
    assert(sig@.subrange(0, 0) =~= seq![]);
    assert(done + escape_pieces(sig@, seq![]) =~= escape_pieces(sig@, seq![]));
    while i < n
        invariant
            n == cs@.len(),
            cs@ == sig@,
            start <= i <= n,
            escape_pieces(sig@, seq![]) == done + escape_pieces(
                sig@.skip(i as int),
                sig@.subrange(start as int, i as int),
            ),
            seen <==> done.len() > 0,
            seen ==> bytes@ == code_bytes_of(done.drop_first()),
            seen ==> mask@ == code_mask_of(done.drop_first()),
            !seen ==> bytes@.len() == 0 && mask@.len() == 0,
        decreases n - i,
    {
        let ghost cur = sig@.subrange(start as int, i as int);
        if i + 1 < n && cs[i] == '\\' && cs[i + 1] == 'x' {
            if seen {
                let (b, m) = code_item(&cs, start, i);
                bytes.push(b);
                mask.push(m);
            }
            proof {
                assert(sig@.skip(i as int).skip(2) =~= sig@.skip(i + 2));
                assert(sig@.subrange(i + 2, i + 2) =~= seq![]);
                assert(done.push(cur) + escape_pieces(sig@.skip(i + 2), seq![]) =~= done + (seq![
                    cur,
                ] + escape_pieces(sig@.skip(i + 2), seq![])));
                if seen {
                    assert(done.push(cur).drop_first() =~= done.drop_first().push(cur));
                    assert(bytes@ =~= code_bytes_of(done.push(cur).drop_first()));
                    assert(mask@ =~= code_mask_of(done.push(cur).drop_first()));
                } else {
                    assert(done.push(cur).drop_first() =~= seq![]);
                    assert(bytes@ =~= code_bytes_of(done.push(cur).drop_first()));
                    assert(mask@ =~= code_mask_of(done.push(cur).drop_first()));
                }
                done = done.push(cur);
            }
            seen = true;
            i = i + 2;
            start = i;
        } else {
            proof {
                assert(sig@.skip(i as int).drop_first() =~= sig@.skip(i + 1));
                assert(cur.push(sig@[i as int]) =~= sig@.subrange(start as int, i + 1));
            }
            i += 1;
        }
    }
    let ghost cur = sig@.subrange(start as int, n as int);
    if seen {
        let (b, m) = code_item(&cs, start, n);
        bytes.push(b);
        mask.push(m);
    }
    proof {
        assert(escape_pieces(sig@.skip(n as int), cur) == seq![cur]);
        assert(escape_pieces(sig@, seq![]) =~= done.push(cur));
        if seen {
            assert(done.push(cur).drop_first() =~= done.drop_first().push(cur));
        } else {
            assert(done.push(cur).drop_first() =~= seq![]);
        }
        assert(bytes@ =~= code_bytes_of(escapes(sig@)));
        assert(mask@ =~= code_mask_of(escapes(sig@)));
    }
    Signature { bytes, mask }
}


/// A pattern in space-delimited notation and one in escaped-hex notation
/// that spell the same sequence of exact bytes and wildcards compile to the
/// same signature: both give a wildcard the byte zero.
pub proof fn notations_agree(a: Seq<char>, b: Seq<char>)
    requires
        ida_mask(a) == code_mask(b),
        forall|k: int|
            0 <= k < ida_mask(a).len() && #[trigger] ida_mask(a)[k] ==> ida_bytes(a)[k]
                == code_bytes(b)[k],
    ensures
        ida_bytes(a) == code_bytes(b),
{
    let (wa, wb) = (words(a), escapes(b));
    assert(ida_mask(a).len() == wa.len() && code_mask(b).len() == wb.len());
    assert forall|k: int| 0 <= k < ida_bytes(a).len() implies ida_bytes(a)[k] == code_bytes(
        b,
    )[k] by {
        assert(ida_mask(a)[k] == ida_entry(wa[k]).1);
        assert(ida_bytes(a)[k] == ida_entry(wa[k]).0);
        assert(code_mask(b)[k] == code_entry(wb[k]).1);
        assert(code_bytes(b)[k] == code_entry(wb[k]).0);
    }
    assert(ida_bytes(a) =~= code_bytes(b));
}

proof fn lemma_word_len_bound(s: Seq<char>)
    ensures
        word_len(s) <= s.len(),
    decreases s.len(),
{
    if s.len() > 0 && !is_space(s[0]) {
        lemma_word_len_bound(s.drop_first());
    }
}

/// `word_len` of a suffix, measured from a later start inside the same word.
proof fn lemma_word_len_step(s: Seq<char>, i: int)
    requires
        0 <= i < s.len(),
        !is_space(s[i]),
    ensures
        word_len(s.skip(i)) == 1 + word_len(s.skip(i + 1)),
{
    assert(s.skip(i).drop_first() =~= s.skip(i + 1));
}

/// The characters of `s`, one by one.
fn chars_of(s: &str) -> (r: Vec<char>)
    ensures
        r@ == s@,
{
    let n = s.unicode_len();
    let mut r: Vec<char> = Vec::new();
    let mut i: usize = 0;
    while i < n
        invariant
            n == s@.len(),
            i <= n,
            r@ == s@.take(i as int),
        decreases n - i,
    {
        r.push(s.get_char(i));
        i += 1;
        assert(r@ =~= s@.take(i as int));
    }
    assert(r@ =~= s@);
    r
}

fn space(c: char) -> (r: bool)
    ensures
        r == is_space(c),
{
    let u = c as u32;
    (0x09 <= u && u <= 0x0D) || u == 0x20 || u == 0x85 || u == 0xA0 || u == 0x1680 || (0x2000
        <= u && u <= 0x200A) || u == 0x2028 || u == 0x2029 || u == 0x202F || u == 0x205F || u
        == 0x3000
}

fn digit(c: char) -> (r: Option<u32>)
    ensures
        r is Some <==> hex_digit(c) is Some,
        r is Some ==> r->0 == hex_digit(c)->0 && r->0 < 16,
{
    let u = c as u32;
    if 0x30 <= u && u <= 0x39 {
        Some(u - 0x30)
    } else if 0x41 <= u && u <= 0x46 {
        Some(u - 0x41 + 10)
    } else if 0x61 <= u && u <= 0x66 {
        Some(u - 0x61 + 10)
    } else {
        None
    }
}

/// Reads `cs[lo..hi]` as a byte in base 16.
fn read_hex_byte(cs: &Vec<char>, lo: usize, hi: usize) -> (r: Option<u8>)
    requires
        lo <= hi <= cs@.len(),
    ensures
        r == hex_byte(cs@.subrange(lo as int, hi as int)),
{
    let ghost s = cs@.subrange(lo as int, hi as int);
    let mut k: usize = lo;
    if lo < hi && cs[lo] == '+' {
        k = lo + 1;
    }
    let ghost d = cs@.subrange(k as int, hi as int);
    assert(d =~= if s.len() > 0 && s[0] == '+' { s.drop_first() } else { s });
    if k == hi {
        return None;
    }
    let start = k;
    let mut acc: u32 = 0;
    let mut over = false;
    while k < hi
        invariant
            lo <= start <= k <= hi <= cs@.len(),
            s == cs@.subrange(lo as int, hi as int),
            d == cs@.subrange(start as int, hi as int),
            d.len() > 0,
            s.len() > 0 && s[0] == '+' ==> d == s.drop_first(),
            !(s.len() > 0 && s[0] == '+') ==> d == s,
            acc < 256,
            match hex_value(cs@.subrange(start as int, k as int)) {
                Some(v) => if over { v >= 256 } else { v == acc },
                None => false,
            },
        decreases hi - k,
    {
        let ghost pre = cs@.subrange(start as int, k as int);
        let ghost next = cs@.subrange(start as int, k + 1);
        assert(next.drop_last() =~= pre);
        match digit(cs[k]) {
            None => {
                proof {
                    assert(d[(k - start) as int] == cs@[k as int]);
                    lemma_hex_value_none(d, (k - start) as int);
                }
                return None;
            },
            Some(x) => {
                if !over {
                    let v = acc * 16 + x;
                    if v >= 256 {
                        over = true;
                    } else {
                        acc = v;
                    }
                }
            },
        }
        k += 1;
    }
    assert(cs@.subrange(start as int, k as int) == d);
    if over {
        None
    } else {
        Some(acc as u8)
    }
}

/// Whether `cs[lo..hi]` holds a `?`.
fn has_wild(cs: &Vec<char>, lo: usize, hi: usize) -> (r: bool)
    requires
        lo <= hi <= cs@.len(),
    ensures
        r == is_wild_token(cs@.subrange(lo as int, hi as int)),
{
    let ghost t = cs@.subrange(lo as int, hi as int);
    let mut k: usize = lo;
    while k < hi
        invariant
            lo <= k <= hi <= cs@.len(),
            t == cs@.subrange(lo as int, hi as int),
            forall|m: int| 0 <= m < k - lo ==> t[m] != '?',
        decreases hi - k,
    {
        if cs[k] == '?' {
            assert(t[(k - lo) as int] == '?');
            return true;
        }
        k += 1;
    }
    false
}

/// Entry of the space-delimited token `cs[lo..hi]`.
fn ida_item(cs: &Vec<char>, lo: usize, hi: usize) -> (r: (u8, bool))
    requires
        lo <= hi <= cs@.len(),
    ensures
        r == ida_entry(cs@.subrange(lo as int, hi as int)),
{
    if has_wild(cs, lo, hi) {
        (0, false)
    } else {
        match read_hex_byte(cs, lo, hi) {
            Some(b) => (b, true),
            None => (0, true),
        }
    }
}

/// Entry of the escape `cs[lo..hi]`.
fn code_item(cs: &Vec<char>, lo: usize, hi: usize) -> (r: (u8, bool))
    requires
        lo <= hi <= cs@.len(),
    ensures
        r == code_entry(cs@.subrange(lo as int, hi as int)),
{
    let ghost t = cs@.subrange(lo as int, hi as int);
    if hi - lo == 2 && cs[lo] == '0' && cs[lo + 1] == '0' {
        assert(t =~= seq!['0', '0']);
        (0, false)
    } else {
        assert(t.len() != 2 || t[0] != '0' || t[1] != '0');
        assert(t != seq!['0', '0']);
        match read_hex_byte(cs, lo, hi) {
            Some(b) => (b, true),
            None => (0, true),
        }
    }
}

/// A non-digit anywhere makes the whole run unreadable.
proof fn lemma_hex_value_none(d: Seq<char>, k: int)
    requires
        0 <= k < d.len(),
        hex_digit(d[k]) is None,
    ensures
        hex_value(d) is None,
    decreases d.len(),
{
    if k < d.len() - 1 {
        lemma_hex_value_none(d.drop_last(), k);
    }
}

} // verus!
