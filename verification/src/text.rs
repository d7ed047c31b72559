//! Textual CIDR notation: the grammar of addresses and networks, as
//! specification functions, and verified parsing and formatting against it.
//!
//! IPv4 addresses are four decimal octets (no leading zeros) joined by `.`;
//! IPv6 addresses are up to eight groups of one to four hex digits joined
//! by `:`, with at most one `::` standing for one or more zero groups.
//! Formatting emits lowercase hex and compresses the leftmost longest run
//! of two or more zero groups.
use vstd::prelude::*;

verus! {

// ----- digits -----

/// The decimal digit character for a value below ten.
pub open spec fn spec_digit_char(d: nat) -> char {
    if d == 0 {
        '0'
    } else if d == 1 {
        '1'
    } else if d == 2 {
        '2'
    } else if d == 3 {
        '3'
    } else if d == 4 {
        '4'
    } else if d == 5 {
        '5'
    } else if d == 6 {
        '6'
    } else if d == 7 {
        '7'
    } else if d == 8 {
        '8'
    } else {
        '9'
    }
}

/// Whether `c` is a decimal digit.
pub open spec fn spec_is_digit(c: char) -> bool {
    '0' <= c <= '9'
}

/// The value of a decimal digit character; 0 for anything else.
pub open spec fn spec_digit_val(c: char) -> nat {
    if c == '1' {
        1
    } else if c == '2' {
        2
    } else if c == '3' {
        3
    } else if c == '4' {
        4
    } else if c == '5' {
        5
    } else if c == '6' {
        6
    } else if c == '7' {
        7
    } else if c == '8' {
        8
    } else if c == '9' {
        9
    } else {
        0
    }
}

/// The lowercase hex digit character for a value below sixteen.
pub open spec fn spec_hex_char(d: nat) -> char {
    if d < 10 {
        spec_digit_char(d)
    } else if d == 10 {
        'a'
    } else if d == 11 {
        'b'
    } else if d == 12 {
        'c'
    } else if d == 13 {
        'd'
    } else if d == 14 {
        'e'
    } else {
        'f'
    }
}

/// Whether `c` is a hex digit, of either case.
pub open spec fn spec_is_hex_digit(c: char) -> bool {
    spec_is_digit(c) || ('a' <= c <= 'f') || ('A' <= c <= 'F')
}

/// The value of a hex digit character; 0 for anything else.
pub open spec fn spec_hex_val(c: char) -> nat {
    if spec_is_digit(c) {
        spec_digit_val(c)
    } else if c == 'a' || c == 'A' {
        10
    } else if c == 'b' || c == 'B' {
        11
    } else if c == 'c' || c == 'C' {
        12
    } else if c == 'd' || c == 'D' {
        13
    } else if c == 'e' || c == 'E' {
        14
    } else if c == 'f' || c == 'F' {
        15
    } else {
        0
    }
}

// ----- numbers as text -----

/// Decimal form of `n`, without leading zeros ("0" for zero).
pub open spec fn spec_fmt_dec(n: nat) -> Seq<char>
    decreases n,
{
    if n < 10 {
        seq![spec_digit_char(n)]
    } else {
        spec_fmt_dec(n / 10).push(spec_digit_char(n % 10))
    }
}

/// Lowercase hex form of `n`, without leading zeros ("0" for zero).
pub open spec fn spec_fmt_hex(n: nat) -> Seq<char>
    decreases n,
{
    if n < 16 {
        seq![spec_hex_char(n)]
    } else {
        spec_fmt_hex(n / 16).push(spec_hex_char(n % 16))
    }
}

/// The number a sequence of decimal digit characters denotes.
pub open spec fn spec_dec_val(s: Seq<char>) -> nat
    decreases s.len(),
{
    if s.len() == 0 {
        0
    } else {
        10 * spec_dec_val(s.drop_last()) + spec_digit_val(s.last())
    }
}

/// The number a sequence of hex digit characters denotes.
pub open spec fn spec_hex_seq_val(s: Seq<char>) -> nat
    decreases s.len(),
{
    if s.len() == 0 {
        0
    } else {
        16 * spec_hex_seq_val(s.drop_last()) + spec_hex_val(s.last())
    }
}

/// Whether every character of `s` is a decimal digit.
pub open spec fn spec_all_digits(s: Seq<char>) -> bool {
    forall|i: int| 0 <= i < s.len() ==> spec_is_digit(#[trigger] s[i])
}

/// Whether every character of `s` is a hex digit.
pub open spec fn spec_all_hex_digits(s: Seq<char>) -> bool {
    forall|i: int| 0 <= i < s.len() ==> spec_is_hex_digit(#[trigger] s[i])
}

/// A valid IPv4 octet: one to three decimal digits, no leading zero, value
/// at most 255.
pub open spec fn spec_valid_octet(s: Seq<char>) -> bool {
    &&& 1 <= s.len() <= 3
    &&& spec_all_digits(s)
    &&& (s.len() > 1 ==> s[0] != '0')
    &&& spec_dec_val(s) <= 255
}

/// A valid netmask: one to three decimal digits, value at most 255.
pub open spec fn spec_valid_netmask_token(s: Seq<char>) -> bool {
    &&& 1 <= s.len() <= 3
    &&& spec_all_digits(s)
    &&& spec_dec_val(s) <= 255
}

/// A valid IPv6 group: one to four hex digits.
pub open spec fn spec_valid_group(s: Seq<char>) -> bool {
    &&& 1 <= s.len() <= 4
    &&& spec_all_hex_digits(s)
}

// ----- find and split -----

/// Index of the first occurrence of `c` in `s`, or -1 when there is none.
pub open spec fn spec_find(s: Seq<char>, c: char) -> int
    decreases s.len(),
{
    if s.len() == 0 {
        -1
    } else if s[0] == c {
        0
    } else {
        let r = spec_find(s.drop_first(), c);
        if r < 0 {
            -1
        } else {
            1 + r
        }
    }
}

/// The tokens of `s` between occurrences of the separator `c`; always at
/// least one token, and empty tokens where separators touch.
pub open spec fn spec_split(s: Seq<char>, c: char) -> Seq<Seq<char>>
    decreases s.len(),
{
    let f = spec_find(s, c);
    if f < 0 || f >= s.len() {
        seq![s]
    } else {
        seq![s.subrange(0, f)] + spec_split(s.subrange(f + 1, s.len() as int), c)
    }
}

// ----- IPv4 address text -----

/// The `i`-th byte of a 32-bit address, counting from the most significant.
pub open spec fn spec_octet(a: u32, i: int) -> nat {
    if i == 0 {
        ((a >> 24u32) & 0xff) as nat
    } else if i == 1 {
        ((a >> 16u32) & 0xff) as nat
    } else if i == 2 {
        ((a >> 8u32) & 0xff) as nat
    } else {
        (a & 0xff) as nat
    }
}

/// The dotted-quad form of a 32-bit address.
pub open spec fn spec_fmt_v4(a: u32) -> Seq<char> {
    spec_fmt_dec(spec_octet(a, 0)) + seq!['.'] + spec_fmt_dec(spec_octet(a, 1)) + seq!['.']
        + spec_fmt_dec(spec_octet(a, 2)) + seq!['.'] + spec_fmt_dec(spec_octet(a, 3))
}

/// The address a dotted-quad denotes: four valid octets joined by `.`.
pub open spec fn spec_parse_v4(s: Seq<char>) -> Option<u32> {
    let toks = spec_split(s, '.');
    if toks.len() == 4 && spec_valid_octet(toks[0]) && spec_valid_octet(toks[1])
        && spec_valid_octet(toks[2]) && spec_valid_octet(toks[3]) {
        Some(
            ((spec_dec_val(toks[0]) * 0x100_0000 + spec_dec_val(toks[1]) * 0x1_0000 + spec_dec_val(
                toks[2],
            ) * 0x100 + spec_dec_val(toks[3])) as u32),
        )
    } else {
        None
    }
}

// ----- IPv6 address text -----

/// The `i`-th 16-bit segment of a 128-bit address, counting from the most
/// significant.
pub open spec fn spec_seg(a: u128, i: int) -> u16 {
    if i == 0 {
        ((a >> 112u32) & 0xffff) as u16
    } else if i == 1 {
        ((a >> 96u32) & 0xffff) as u16
    } else if i == 2 {
        ((a >> 80u32) & 0xffff) as u16
    } else if i == 3 {
        ((a >> 64u32) & 0xffff) as u16
    } else if i == 4 {
        ((a >> 48u32) & 0xffff) as u16
    } else if i == 5 {
        ((a >> 32u32) & 0xffff) as u16
    } else if i == 6 {
        ((a >> 16u32) & 0xffff) as u16
    } else {
        (a & 0xffff) as u16
    }
}

/// The eight 16-bit segments of a 128-bit address.
pub open spec fn spec_segs(a: u128) -> Seq<u16> {
    Seq::new(8, |i: int| spec_seg(a, i))
}

/// Number of consecutive zero segments starting at index `i`.
pub open spec fn spec_run_len(segs: Seq<u16>, i: int) -> int
    decreases segs.len() - i,
{
    if i < 0 || i >= segs.len() || segs[i] != 0 {
        0
    } else {
        1 + spec_run_len(segs, i + 1)
    }
}

/// The start of the leftmost longest zero run at or after `i`; `segs.len()`
/// when no zero segment follows.
pub open spec fn spec_best_run(segs: Seq<u16>, i: int) -> int
    decreases segs.len() - i,
{
    if i >= segs.len() {
        segs.len() as int
    } else {
        let rest = spec_best_run(segs, i + 1);
        if spec_run_len(segs, i) >= spec_run_len(segs, rest) {
            i
        } else {
            rest
        }
    }
}

/// The hex forms of the groups, joined by `:`.
pub open spec fn spec_join_hex(gs: Seq<u16>) -> Seq<char>
    decreases gs.len(),
{
    if gs.len() == 0 {
        Seq::empty()
    } else if gs.len() == 1 {
        spec_fmt_hex(gs[0] as nat)
    } else {
        spec_fmt_hex(gs[0] as nat) + seq![':'] + spec_join_hex(gs.drop_first())
    }
}

/// The canonical colon-hex form of a 128-bit address: lowercase hex groups,
/// with the leftmost longest run of two or more zero groups compressed to
/// `::`.
pub open spec fn spec_fmt_v6(a: u128) -> Seq<char> {
    let segs = spec_segs(a);
    let b = spec_best_run(segs, 0);
    let rl = spec_run_len(segs, b);
    if rl >= 2 {
        spec_join_hex(segs.take(b)) + seq![':', ':'] + spec_join_hex(segs.skip(b + rl))
    } else {
        spec_join_hex(segs)
    }
}

/// The 128-bit value of up to eight group values, each below 2^16, read
/// most significant first.
pub open spec fn spec_combine(gs: Seq<nat>) -> nat
    decreases gs.len(),
{
    if gs.len() == 0 {
        0
    } else {
        spec_combine(gs.drop_last()) * 0x1_0000 + gs.last()
    }
}

/// The values of a sequence of hex group tokens.
pub open spec fn spec_group_vals(toks: Seq<Seq<char>>) -> Seq<nat> {
    toks.map_values(|t: Seq<char>| spec_hex_seq_val(t))
}

/// Whether every token is a valid hex group.
pub open spec fn spec_all_valid_groups(toks: Seq<Seq<char>>) -> bool {
    forall|i: int| 0 <= i < toks.len() ==> spec_valid_group(#[trigger] toks[i])
}

/// Whether every token in `[lo, hi)` is nonempty.
pub open spec fn spec_all_nonempty(toks: Seq<Seq<char>>, lo: int, hi: int) -> bool {
    forall|i: int| lo <= i < hi ==> (#[trigger] toks[i]).len() > 0
}

/// Index of the first empty token, or `toks.len()` when there is none.
pub open spec fn spec_first_empty(toks: Seq<Seq<char>>, i: int) -> int
    decreases toks.len() - i,
{
    if i < 0 || i >= toks.len() {
        toks.len() as int
    } else if toks[i].len() == 0 {
        i
    } else {
        spec_first_empty(toks, i + 1)
    }
}

/// The address value of a `::`-compressed group list: the head groups, then
/// zeros, then the tail groups.
pub open spec fn spec_compressed_val(head: Seq<Seq<char>>, tail: Seq<Seq<char>>) -> nat {
    spec_combine(
        spec_group_vals(head) + Seq::new((8 - head.len() - tail.len()) as nat, |i: int| 0nat)
            + spec_group_vals(tail),
    )
}

/// The address a colon-hex form denotes: eight groups joined by `:`, or
/// fewer groups with exactly one `::` standing for the missing (one or
/// more) zero groups.
pub open spec fn spec_parse_v6(s: Seq<char>) -> Option<u128> {
    let toks = spec_split(s, ':');
    let len = toks.len() as int;
    if len == 8 && spec_all_nonempty(toks, 0, len) && spec_all_valid_groups(toks) {
        // plain form: eight groups
        Some((spec_combine(spec_group_vals(toks)) as u128))
    } else if len == 3 && toks[0].len() == 0 && toks[1].len() == 0 && toks[2].len() == 0 {
        // "::" alone
        Some(0)
    } else if len >= 3 && toks[0].len() == 0 && toks[1].len() == 0 && spec_all_nonempty(
        toks,
        2,
        len,
    ) {
        // leading "::"
        let tail = toks.skip(2);
        if tail.len() <= 7 && spec_all_valid_groups(tail) {
            Some((spec_compressed_val(Seq::empty(), tail) as u128))
        } else {
            None
        }
    } else if len >= 3 && toks[len - 1].len() == 0 && toks[len - 2].len() == 0
        && spec_all_nonempty(toks, 0, len - 2) {
        // trailing "::"
        let head = toks.take(len - 2);
        if head.len() <= 7 && spec_all_valid_groups(head) {
            Some((spec_compressed_val(head, Seq::empty()) as u128))
        } else {
            None
        }
    } else if len >= 3 && ({
        let e = spec_first_empty(toks, 0);
        &&& 0 < e < len - 1
        &&& spec_all_nonempty(toks, e + 1, len)
    }) {
        // one "::" in the middle
        let e = spec_first_empty(toks, 0);
        let head = toks.take(e);
        let tail = toks.skip(e + 1);
        if head.len() + tail.len() <= 7 && spec_all_valid_groups(head) && spec_all_valid_groups(
            tail,
        ) {
            Some((spec_compressed_val(head, tail) as u128))
        } else {
            None
        }
    } else {
        None
    }
}

// ----- lemmas about find and split -----

/// Characterization of `spec_find`: it is the index of the first
/// occurrence, and -1 exactly when there is none.
pub proof fn lemma_find_props(s: Seq<char>, c: char)
    ensures
        spec_find(s, c) >= 0 ==> {
            &&& spec_find(s, c) < s.len()
            &&& s[spec_find(s, c)] == c
            &&& forall|j: int| 0 <= j < spec_find(s, c) ==> s[j] != c
        },
        spec_find(s, c) < 0 ==> forall|j: int| 0 <= j < s.len() ==> s[j] != c,
    decreases s.len(),
{
    if s.len() > 0 && s[0] != c {
        lemma_find_props(s.drop_first(), c);
        let r = spec_find(s.drop_first(), c);
        if r >= 0 {
            assert forall|j: int| 0 <= j < 1 + r implies s[j] != c by {
                if j > 0 {
                    assert(s.drop_first()[j - 1] != c);
                }
            }
        } else {
            assert forall|j: int| 0 <= j < s.len() implies s[j] != c by {
                if j > 0 {
                    assert(s.drop_first()[j - 1] != c);
                }
            }
        }
    }
}

/// A sequence without the separator splits into itself alone.
pub proof fn lemma_split_no_sep(u: Seq<char>, c: char)
    requires
        forall|j: int| 0 <= j < u.len() ==> u[j] != c,
    ensures
        spec_split(u, c) == seq![u],
{
    lemma_find_props(u, c);
    if spec_find(u, c) >= 0 {
        assert(u[spec_find(u, c)] == c);
    }
}

/// Splitting at the first separator: a separator-free prefix becomes the
/// first token.
pub proof fn lemma_split_sep(u: Seq<char>, w: Seq<char>, c: char)
    requires
        forall|j: int| 0 <= j < u.len() ==> u[j] != c,
    ensures
        spec_split(u + seq![c] + w, c) == seq![u] + spec_split(w, c),
{
    let s = u + seq![c] + w;
    lemma_find_props(s, c);
    assert(s[u.len() as int] == c);
    let f = spec_find(s, c);
    assert(f >= 0);
    assert(f <= u.len()) by {
        if f > u.len() {
            assert(s[u.len() as int] != c);
        }
    }
    assert(f == u.len()) by {
        if f < u.len() {
            assert(s[f] == u[f]);
        }
    }
    assert(s.subrange(0, f) =~= u);
    assert(s.subrange(f + 1, s.len() as int) =~= w);
}

// ----- building text -----

/// Appends the decimal digit character for `d`.
fn append_digit(s: &mut String, d: u8)
    requires
        d < 10,
    ensures
        final(s)@ == old(s)@.push(spec_digit_char(d as nat)),
{
    proof {
        reveal_strlit("0");
        reveal_strlit("1");
        reveal_strlit("2");
        reveal_strlit("3");
        reveal_strlit("4");
        reveal_strlit("5");
        reveal_strlit("6");
        reveal_strlit("7");
        reveal_strlit("8");
        reveal_strlit("9");
    }
    if d == 0 {
        s.append("0");
    } else if d == 1 {
        s.append("1");
    } else if d == 2 {
        s.append("2");
    } else if d == 3 {
        s.append("3");
    } else if d == 4 {
        s.append("4");
    } else if d == 5 {
        s.append("5");
    } else if d == 6 {
        s.append("6");
    } else if d == 7 {
        s.append("7");
    } else if d == 8 {
        s.append("8");
    } else {
        s.append("9");
    }
    proof {
        assert(s@ =~= old(s)@.push(spec_digit_char(d as nat)));
    }
}

/// Appends the lowercase hex digit character for `d`.
fn append_hex_digit(s: &mut String, d: u8)
    requires
        d < 16,
    ensures
        final(s)@ == old(s)@.push(spec_hex_char(d as nat)),
{
    if d < 10 {
        append_digit(s, d);
    } else {
        proof {
            reveal_strlit("a");
            reveal_strlit("b");
            reveal_strlit("c");
            reveal_strlit("d");
            reveal_strlit("e");
            reveal_strlit("f");
        }
        if d == 10 {
            s.append("a");
        } else if d == 11 {
            s.append("b");
        } else if d == 12 {
            s.append("c");
        } else if d == 13 {
            s.append("d");
        } else if d == 14 {
            s.append("e");
        } else {
            s.append("f");
        }
        proof {
            assert(s@ =~= old(s)@.push(spec_hex_char(d as nat)));
        }
    }
}

/// Appends the decimal form of `n` (one to three digits, no leading zero).
fn append_dec_u8(s: &mut String, n: u8)
    ensures
        final(s)@ == old(s)@ + spec_fmt_dec(n as nat),
{
    if n >= 100 {
        append_digit(s, n / 100);
        append_digit(s, (n / 10) % 10);
        append_digit(s, n % 10);
        proof {
            assert(spec_fmt_dec(n as nat) == spec_fmt_dec((n as nat) / 10).push(
                spec_digit_char((n as nat) % 10),
            ));
            assert(spec_fmt_dec((n as nat) / 10) == spec_fmt_dec((n as nat) / 10 / 10).push(
                spec_digit_char(((n as nat) / 10) % 10),
            ));
            assert((n as nat) / 10 / 10 == (n as nat) / 100);
            assert((n as nat) / 100 < 10);
            assert(spec_fmt_dec((n as nat) / 100) =~= seq![spec_digit_char((n as nat) / 100)]);
            assert(s@ =~= old(s)@.push(spec_digit_char((n as nat) / 100)).push(
                spec_digit_char(((n as nat) / 10) % 10),
            ).push(spec_digit_char((n as nat) % 10)));
            assert(old(s)@ + spec_fmt_dec(n as nat) =~= old(s)@.push(
                spec_digit_char((n as nat) / 100),
            ).push(spec_digit_char(((n as nat) / 10) % 10)).push(spec_digit_char((n as nat) % 10)));
            assert(s@ =~= old(s)@ + spec_fmt_dec(n as nat));
        }
    } else if n >= 10 {
        append_digit(s, n / 10);
        append_digit(s, n % 10);
        proof {
            assert(spec_fmt_dec(n as nat) == spec_fmt_dec((n as nat) / 10).push(
                spec_digit_char((n as nat) % 10),
            ));
            assert((n as nat) / 10 < 10);
            assert(spec_fmt_dec((n as nat) / 10) =~= seq![spec_digit_char((n as nat) / 10)]);
            assert(s@ =~= old(s)@ + spec_fmt_dec(n as nat));
        }
    } else {
        append_digit(s, n);
        proof {
            assert(s@ =~= old(s)@ + spec_fmt_dec(n as nat));
        }
    }
}

/// Appends the lowercase hex form of `n` (one to four digits, no leading
/// zero).
fn append_hex_u16(s: &mut String, n: u16)
    ensures
        final(s)@ == old(s)@ + spec_fmt_hex(n as nat),
{
    let d0: u8 = ((n >> 12) & 0xf) as u8;
    let d1: u8 = ((n >> 8) & 0xf) as u8;
    let d2: u8 = ((n >> 4) & 0xf) as u8;
    let d3: u8 = (n & 0xf) as u8;
    proof {
        assert((n >> 12) & 0xf == (n as nat) / 0x1000 % 16 && (n >> 8) & 0xf == (n as nat) / 0x100
            % 16 && (n >> 4) & 0xf == (n as nat) / 0x10 % 16 && n & 0xf == (n as nat) % 16 && (n
            >> 12) & 0xf < 16 && (n >> 8) & 0xf < 16 && (n >> 4) & 0xf < 16 && n & 0xf < 16)
            by (bit_vector);
    }
    if n >= 0x1000 {
        append_hex_digit(s, d0);
        append_hex_digit(s, d1);
        append_hex_digit(s, d2);
        append_hex_digit(s, d3);
        proof {
            let m = n as nat;
            assert(spec_fmt_hex(m / 0x1000) =~= seq![spec_hex_char(m / 0x1000)]);
            assert(spec_fmt_hex(m / 0x100) =~= spec_fmt_hex(m / 0x1000).push(
                spec_hex_char(m / 0x100 % 16),
            ));
            assert(spec_fmt_hex(m / 0x10) =~= spec_fmt_hex(m / 0x100).push(
                spec_hex_char(m / 0x10 % 16),
            ));
            assert(spec_fmt_hex(m) =~= spec_fmt_hex(m / 0x10).push(spec_hex_char(m % 16)));
            assert(s@ =~= old(s)@ + spec_fmt_hex(n as nat));
        }
    } else if n >= 0x100 {
        append_hex_digit(s, d1);
        append_hex_digit(s, d2);
        append_hex_digit(s, d3);
        proof {
            let m = n as nat;
            assert(m / 0x100 < 16 && m / 0x100 == m / 0x100 % 16);
            assert(spec_fmt_hex(m / 0x100) =~= seq![spec_hex_char(m / 0x100)]);
            assert(spec_fmt_hex(m / 0x10) =~= spec_fmt_hex(m / 0x100).push(
                spec_hex_char(m / 0x10 % 16),
            ));
            assert(spec_fmt_hex(m) =~= spec_fmt_hex(m / 0x10).push(spec_hex_char(m % 16)));
            assert(s@ =~= old(s)@ + spec_fmt_hex(n as nat));
        }
    } else if n >= 0x10 {
        append_hex_digit(s, d2);
        append_hex_digit(s, d3);
        proof {
            let m = n as nat;
            assert(m / 0x10 < 16 && m / 0x10 == m / 0x10 % 16);
            assert(spec_fmt_hex(m / 0x10) =~= seq![spec_hex_char(m / 0x10)]);
            assert(spec_fmt_hex(m) =~= spec_fmt_hex(m / 0x10).push(spec_hex_char(m % 16)));
            assert(s@ =~= old(s)@ + spec_fmt_hex(n as nat));
        }
    } else {
        append_hex_digit(s, d3);
        proof {
            let m = n as nat;
            assert(m < 16 && m == m % 16);
            assert(s@ =~= old(s)@ + spec_fmt_hex(n as nat));
        }
    }
}

/// Appends the dotted-quad form of a 32-bit address.
pub(crate) fn append_v4(s: &mut String, a: u32)
    ensures
        final(s)@ == old(s)@ + spec_fmt_v4(a),
{
    proof {
        assert((a >> 24u32) & 0xff < 256 && (a >> 16u32) & 0xff < 256 && (a >> 8u32) & 0xff < 256
            && a & 0xff < 256) by (bit_vector);
        reveal_strlit(".");
    }
    let o0: u8 = ((a >> 24u32) & 0xff) as u8;
    let o1: u8 = ((a >> 16u32) & 0xff) as u8;
    let o2: u8 = ((a >> 8u32) & 0xff) as u8;
    let o3: u8 = (a & 0xff) as u8;
    append_dec_u8(s, o0);
    s.append(".");
    append_dec_u8(s, o1);
    s.append(".");
    append_dec_u8(s, o2);
    s.append(".");
    append_dec_u8(s, o3);
    proof {
        assert(o0 as nat == spec_octet(a, 0) && o1 as nat == spec_octet(a, 1) && o2 as nat
            == spec_octet(a, 2) && o3 as nat == spec_octet(a, 3));
        assert(s@ =~= old(s)@ + spec_fmt_v4(a));
    }
}

/// The eight 16-bit segments of `a`, most significant first.
fn segs_of(a: u128) -> (r: Vec<u16>)
    ensures
        r@ == spec_segs(a),
{
    proof {
        assert((a >> 112u32) & 0xffff < 0x10000 && (a >> 96u32) & 0xffff < 0x10000 && (a >> 80u32)
            & 0xffff < 0x10000 && (a >> 64u32) & 0xffff < 0x10000 && (a >> 48u32) & 0xffff
            < 0x10000 && (a >> 32u32) & 0xffff < 0x10000 && (a >> 16u32) & 0xffff < 0x10000 && a
            & 0xffff < 0x10000) by (bit_vector);
    }
    let mut v: Vec<u16> = Vec::new();
    v.push(((a >> 112u32) & 0xffff) as u16);
    v.push(((a >> 96u32) & 0xffff) as u16);
    v.push(((a >> 80u32) & 0xffff) as u16);
    v.push(((a >> 64u32) & 0xffff) as u16);
    v.push(((a >> 48u32) & 0xffff) as u16);
    v.push(((a >> 32u32) & 0xffff) as u16);
    v.push(((a >> 16u32) & 0xffff) as u16);
    v.push((a & 0xffff) as u16);
    proof {
        assert(v@ =~= spec_segs(a));
    }
    v
}

/// Number of consecutive zero segments starting at `i`.
fn run_len_at(segs: &Vec<u16>, i: usize) -> (r: usize)
    requires
        segs@.len() == 8,
        i <= 8,
    ensures
        r as int == spec_run_len(segs@, i as int),
        r <= 8 - i,
{
    let mut j: usize = i;
    while j < 8 && *segs.get(j).unwrap() == 0
        invariant
            segs@.len() == 8,
            i <= j <= 8,
            spec_run_len(segs@, i as int) == (j - i) + spec_run_len(segs@, j as int),
        decreases 8 - j,
    {
        j = j + 1;
    }
    j - i
}

/// The start and length of the leftmost longest zero run of the segments.
fn best_run(segs: &Vec<u16>) -> (r: (usize, usize))
    requires
        segs@.len() == 8,
    ensures
        r.0 as int == spec_best_run(segs@, 0),
        r.1 as int == spec_run_len(segs@, spec_best_run(segs@, 0)),
        r.0 <= 8,
        r.1 <= 8 - r.0,
{
    let mut best: usize = 8;
    let mut i: usize = 8;
    while i > 0
        invariant
            segs@.len() == 8,
            i <= 8,
            best <= 8,
            best as int == spec_best_run(segs@, i as int),
        decreases i,
    {
        i = i - 1;
        let rl_i = run_len_at(segs, i);
        let rl_b = run_len_at(segs, best);
        if rl_i >= rl_b {
            best = i;
        }
    }
    let l = run_len_at(segs, best);
    (best, l)
}

/// Joining one more group onto a joined list appends a separator (when the
/// list was nonempty) and the group's hex form.
proof fn lemma_join_snoc(gs: Seq<u16>, g: u16)
    ensures
        gs.len() == 0 ==> spec_join_hex(gs.push(g)) == spec_fmt_hex(g as nat),
        gs.len() > 0 ==> spec_join_hex(gs.push(g)) == spec_join_hex(gs) + seq![':'] + spec_fmt_hex(
            g as nat,
        ),
    decreases gs.len(),
{
    if gs.len() == 0 {
        assert(gs.push(g) =~= seq![g]);
    } else {
        lemma_join_snoc(gs.drop_first(), g);
        assert(gs.push(g).drop_first() =~= gs.drop_first().push(g));
        if gs.len() == 1 {
            assert(spec_join_hex(gs.push(g)) =~= spec_join_hex(gs) + seq![':'] + spec_fmt_hex(
                g as nat,
            ));
        } else {
            assert(spec_join_hex(gs.push(g)) =~= spec_join_hex(gs) + seq![':'] + spec_fmt_hex(
                g as nat,
            ));
        }
    }
}

/// Appends the groups `segs[lo..hi]` in hex, joined by `:`.
fn append_join_hex(s: &mut String, segs: &Vec<u16>, lo: usize, hi: usize)
    requires
        lo <= hi <= segs@.len(),
    ensures
        final(s)@ == old(s)@ + spec_join_hex(segs@.subrange(lo as int, hi as int)),
{
    let mut k: usize = lo;
    proof {
        assert(segs@.subrange(lo as int, lo as int) =~= Seq::<u16>::empty());
        assert(s@ =~= old(s)@ + spec_join_hex(segs@.subrange(lo as int, lo as int)));
    }
    while k < hi
        invariant
            lo <= k <= hi <= segs@.len(),
            s@ == old(s)@ + spec_join_hex(segs@.subrange(lo as int, k as int)),
        decreases hi - k,
    {
        if k > lo {
            proof {
                reveal_strlit(":");
            }
            s.append(":");
        }
        append_hex_u16(s, *segs.get(k).unwrap());
        proof {
            lemma_join_snoc(segs@.subrange(lo as int, k as int), segs@[k as int]);
            assert(segs@.subrange(lo as int, (k + 1) as int) =~= segs@.subrange(
                lo as int,
                k as int,
            ).push(segs@[k as int]));
            assert(s@ =~= old(s)@ + spec_join_hex(segs@.subrange(lo as int, (k + 1) as int)));
        }
        k = k + 1;
    }
}

/// Appends the canonical colon-hex form of a 128-bit address.
pub(crate) fn append_v6(s: &mut String, a: u128)
    ensures
        final(s)@ == old(s)@ + spec_fmt_v6(a),
{
    let segs = segs_of(a);
    let br = best_run(&segs);
    let b = br.0;
    let rl = br.1;
    if rl >= 2 {
        append_join_hex(s, &segs, 0, b);
        proof {
            reveal_strlit("::");
        }
        s.append("::");
        append_join_hex(s, &segs, b + rl, 8);
        proof {
            assert(segs@.subrange(0, b as int) =~= spec_segs(a).take(b as int));
            assert(segs@.subrange((b + rl) as int, 8) =~= spec_segs(a).skip(b as int + rl as int));
            assert("::"@ =~= seq![':', ':']);
            assert(s@ =~= old(s)@ + spec_fmt_v6(a));
        }
    } else {
        append_join_hex(s, &segs, 0, 8);
        proof {
            assert(segs@.subrange(0, 8) =~= spec_segs(a));
            assert(s@ =~= old(s)@ + spec_fmt_v6(a));
        }
    }
}

// ----- parsing -----

/// The tokens of `s` between occurrences of `sep`.
fn split_tokens(s: &str, sep: char) -> (r: Vec<Vec<char>>)
    ensures
        r@.map_values(|t: Vec<char>| t@) == spec_split(s@, sep),
{
    let n: usize = s.unicode_len();
    let mut toks: Vec<Vec<char>> = Vec::new();
    let mut cur: Vec<char> = Vec::new();
    let mut i: usize = 0;
    proof {
        assert(cur@ + s@.subrange(0, n as int) =~= s@);
    }
    while i < n
        invariant
            i <= n,
            n == s@.len(),
            forall|j: int| 0 <= j < cur@.len() ==> cur@[j] != sep,
            spec_split(s@, sep) == toks@.map_values(|t: Vec<char>| t@) + spec_split(
                cur@ + s@.subrange(i as int, n as int),
                sep,
            ),
        decreases n - i,
    {
        let c = s.get_char(i);
        if c == sep {
            proof {
                lemma_split_sep(cur@, s@.subrange(i + 1, n as int), sep);
                assert(cur@ + s@.subrange(i as int, n as int) =~= cur@ + seq![sep] + s@.subrange(
                    i + 1,
                    n as int,
                ));
            }
            let ghost old_toks = toks@;
            let ghost old_cur = cur@;
            toks.push(cur);
            cur = Vec::new();
            proof {
                assert(toks@.map_values(|t: Vec<char>| t@) =~= old_toks.map_values(
                    |t: Vec<char>| t@,
                ).push(old_cur));
                assert(old_toks.map_values(|t: Vec<char>| t@) + (seq![old_cur] + spec_split(
                    s@.subrange(i + 1, n as int),
                    sep,
                )) =~= toks@.map_values(|t: Vec<char>| t@) + spec_split(
                    s@.subrange(i + 1, n as int),
                    sep,
                ));
                assert(cur@ + s@.subrange(i + 1, n as int) =~= s@.subrange(i + 1, n as int));
            }
        } else {
            proof {
                assert(cur@.push(c) + s@.subrange(i + 1, n as int) =~= cur@ + s@.subrange(
                    i as int,
                    n as int,
                ));
            }
            cur.push(c);
        }
        i = i + 1;
    }
    proof {
        assert(cur@ + s@.subrange(n as int, n as int) =~= cur@);
        lemma_split_no_sep(cur@, sep);
    }
    toks.push(cur);
    toks
}

/// Bounds on the number a digit sequence denotes, by its length.
proof fn lemma_dec_val_bound(s: Seq<char>)
    ensures
        s.len() <= 1 ==> spec_dec_val(s) <= 9,
        s.len() <= 2 ==> spec_dec_val(s) <= 99,
        s.len() <= 3 ==> spec_dec_val(s) <= 999,
    decreases s.len(),
{
    if s.len() > 0 {
        lemma_dec_val_bound(s.drop_last());
    }
}

/// Bounds on the number a hex digit sequence denotes, by its length.
proof fn lemma_hex_val_bound(s: Seq<char>)
    ensures
        s.len() <= 4 ==> spec_hex_seq_val(s) <= 0xffff,
        s.len() <= 3 ==> spec_hex_seq_val(s) <= 0xfff,
        s.len() <= 2 ==> spec_hex_seq_val(s) <= 0xff,
        s.len() <= 1 ==> spec_hex_seq_val(s) <= 0xf,
    decreases s.len(),
{
    if s.len() > 0 {
        lemma_hex_val_bound(s.drop_last());
    }
}

/// The value of a decimal digit character.
fn digit_val_exec(c: char) -> (r: u8)
    ensures
        r as nat == spec_digit_val(c),
        r <= 9,
{
    if c == '1' {
        1
    } else if c == '2' {
        2
    } else if c == '3' {
        3
    } else if c == '4' {
        4
    } else if c == '5' {
        5
    } else if c == '6' {
        6
    } else if c == '7' {
        7
    } else if c == '8' {
        8
    } else if c == '9' {
        9
    } else {
        0
    }
}

/// The value of a hex digit character.
fn hex_val_exec(c: char) -> (r: u8)
    ensures
        r as nat == spec_hex_val(c),
        r <= 15,
{
    if c >= '0' && c <= '9' {
        digit_val_exec(c)
    } else if c == 'a' || c == 'A' {
        10
    } else if c == 'b' || c == 'B' {
        11
    } else if c == 'c' || c == 'C' {
        12
    } else if c == 'd' || c == 'D' {
        13
    } else if c == 'e' || c == 'E' {
        14
    } else if c == 'f' || c == 'F' {
        15
    } else {
        0
    }
}

/// Parses one IPv4 octet token; `Some` exactly for a valid octet.
fn parse_octet(tok: &Vec<char>) -> (r: Option<u8>)
    ensures
        spec_valid_octet(tok@) ==> r == Some((spec_dec_val(tok@) as u8)),
        !spec_valid_octet(tok@) ==> r is None,
{
    let len = tok.len();
    if len < 1 || len > 3 {
        return None;
    }
    if len > 1 && *tok.get(0).unwrap() == '0' {
        return None;
    }
    let mut val: u32 = 0;
    let mut k: usize = 0;
    proof {
        assert(tok@.take(0) =~= Seq::<char>::empty());
    }
    while k < len
        invariant
            k <= len <= 3,
            len == tok@.len(),
            val == spec_dec_val(tok@.take(k as int)),
            val <= 999,
            forall|j: int| 0 <= j < k ==> spec_is_digit(#[trigger] tok@[j]),
        decreases len - k,
    {
        let c = *tok.get(k).unwrap();
        if !(c >= '0' && c <= '9') {
            return None;
        }
        let d = digit_val_exec(c);
        proof {
            lemma_dec_val_bound(tok@.take(k as int));
            assert(tok@.take(k + 1).drop_last() =~= tok@.take(k as int));
            assert(tok@.take(k + 1).last() == tok@[k as int]);
        }
        val = val * 10 + d as u32;
        k = k + 1;
        proof {
            lemma_dec_val_bound(tok@.take(k as int));
        }
    }
    proof {
        assert(tok@.take(len as int) =~= tok@);
    }
    if val > 255 {
        return None;
    }
    Some(val as u8)
}

/// Parses a netmask token; `Some` exactly for one to three digits with a
/// value of at most 255.
fn parse_netmask_token(tok: &Vec<char>) -> (r: Option<u8>)
    ensures
        spec_valid_netmask_token(tok@) ==> r == Some((spec_dec_val(tok@) as u8)),
        !spec_valid_netmask_token(tok@) ==> r is None,
{
    let len = tok.len();
    if len < 1 || len > 3 {
        return None;
    }
    let mut val: u32 = 0;
    let mut k: usize = 0;
    proof {
        assert(tok@.take(0) =~= Seq::<char>::empty());
    }
    while k < len
        invariant
            k <= len <= 3,
            len == tok@.len(),
            val == spec_dec_val(tok@.take(k as int)),
            val <= 999,
            forall|j: int| 0 <= j < k ==> spec_is_digit(#[trigger] tok@[j]),
        decreases len - k,
    {
        let c = *tok.get(k).unwrap();
        if !(c >= '0' && c <= '9') {
            return None;
        }
        let d = digit_val_exec(c);
        proof {
            lemma_dec_val_bound(tok@.take(k as int));
            assert(tok@.take(k + 1).drop_last() =~= tok@.take(k as int));
            assert(tok@.take(k + 1).last() == tok@[k as int]);
        }
        val = val * 10 + d as u32;
        k = k + 1;
        proof {
            lemma_dec_val_bound(tok@.take(k as int));
        }
    }
    proof {
        assert(tok@.take(len as int) =~= tok@);
    }
    if val > 255 {
        return None;
    }
    Some(val as u8)
}

/// Parses one IPv6 group token; `Some` exactly for a valid group.
fn parse_group(tok: &Vec<char>) -> (r: Option<u16>)
    ensures
        spec_valid_group(tok@) ==> r == Some((spec_hex_seq_val(tok@) as u16)),
        !spec_valid_group(tok@) ==> r is None,
{
    let len = tok.len();
    if len < 1 || len > 4 {
        return None;
    }
    let mut val: u32 = 0;
    let mut k: usize = 0;
    proof {
        assert(tok@.take(0) =~= Seq::<char>::empty());
    }
    while k < len
        invariant
            k <= len <= 4,
            len == tok@.len(),
            val == spec_hex_seq_val(tok@.take(k as int)),
            val <= 0xffff,
            forall|j: int| 0 <= j < k ==> spec_is_hex_digit(#[trigger] tok@[j]),
        decreases len - k,
    {
        let c = *tok.get(k).unwrap();
        if !((c >= '0' && c <= '9') || (c >= 'a' && c <= 'f') || (c >= 'A' && c <= 'F')) {
            return None;
        }
        let d = hex_val_exec(c);
        proof {
            lemma_hex_val_bound(tok@.take(k as int));
            assert(tok@.take(k + 1).drop_last() =~= tok@.take(k as int));
            assert(tok@.take(k + 1).last() == tok@[k as int]);
        }
        val = val * 16 + d as u32;
        k = k + 1;
        proof {
            lemma_hex_val_bound(tok@.take(k as int));
        }
    }
    proof {
        assert(tok@.take(len as int) =~= tok@);
    }
    Some(val as u16)
}

/// Parses a dotted-quad IPv4 address; `Some` exactly when the text matches
/// the grammar.
pub(crate) fn parse_v4_addr(s: &str) -> (r: Option<u32>)
    ensures
        r == spec_parse_v4(s@),
{
    let toks = split_tokens(s, '.');
    if toks.len() != 4 {
        return None;
    }
    proof {
        assert(spec_split(s@, '.')[0] == toks@[0]@);
        assert(spec_split(s@, '.')[1] == toks@[1]@);
        assert(spec_split(s@, '.')[2] == toks@[2]@);
        assert(spec_split(s@, '.')[3] == toks@[3]@);
    }
    let o0 = match parse_octet(toks.get(0).unwrap()) {
        Some(v) => v,
        None => { return None },
    };
    let o1 = match parse_octet(toks.get(1).unwrap()) {
        Some(v) => v,
        None => { return None },
    };
    let o2 = match parse_octet(toks.get(2).unwrap()) {
        Some(v) => v,
        None => { return None },
    };
    let o3 = match parse_octet(toks.get(3).unwrap()) {
        Some(v) => v,
        None => { return None },
    };
    Some((o0 as u32) * 0x100_0000 + (o1 as u32) * 0x1_0000 + (o2 as u32) * 0x100 + (o3 as u32))
}

/// Whether every token in `[lo, hi)` is nonempty.
fn all_nonempty_range(toks: &Vec<Vec<char>>, lo: usize, hi: usize) -> (r: bool)
    requires
        lo <= hi <= toks@.len(),
    ensures
        r == spec_all_nonempty(toks@.map_values(|t: Vec<char>| t@), lo as int, hi as int),
{
    let ghost tview = toks@.map_values(|t: Vec<char>| t@);
    let mut k: usize = lo;
    while k < hi
        invariant
            lo <= k <= hi <= toks@.len(),
            tview == toks@.map_values(|t: Vec<char>| t@),
            spec_all_nonempty(tview, lo as int, k as int),
        decreases hi - k,
    {
        if toks.get(k).unwrap().len() == 0 {
            proof {
                assert(tview[k as int].len() == 0);
            }
            return false;
        }
        proof {
            assert(tview[k as int].len() > 0);
        }
        k = k + 1;
    }
    true
}

/// The index of the first empty token, or the token count when none is.
fn first_empty_from(toks: &Vec<Vec<char>>, i: usize) -> (r: usize)
    requires
        i <= toks@.len(),
    ensures
        r as int == spec_first_empty(toks@.map_values(|t: Vec<char>| t@), i as int),
        i <= r <= toks@.len(),
    decreases toks@.len() - i,
{
    if i == toks.len() {
        return i;
    }
    if toks.get(i).unwrap().len() == 0 {
        proof {
            assert(toks@.map_values(|t: Vec<char>| t@)[i as int].len() == 0);
        }
        return i;
    }
    proof {
        assert(toks@.map_values(|t: Vec<char>| t@)[i as int].len() > 0);
    }
    first_empty_from(toks, i + 1)
}

/// Parses the group tokens in `[lo, hi)`; `Some` exactly when all are
/// valid, with their values.
fn parse_groups_range(toks: &Vec<Vec<char>>, lo: usize, hi: usize) -> (r: Option<Vec<u16>>)
    requires
        lo <= hi <= toks@.len(),
    ensures
        match r {
            Some(v) => {
                &&& v@.len() == hi - lo
                &&& spec_all_valid_groups(
                    toks@.map_values(|t: Vec<char>| t@).subrange(lo as int, hi as int),
                )
                &&& forall|i: int|
                    0 <= i < v@.len() ==> (#[trigger] v@[i]) as nat == spec_hex_seq_val(
                        toks@.map_values(|t: Vec<char>| t@)[lo + i],
                    )
            },
            None => !spec_all_valid_groups(
                toks@.map_values(|t: Vec<char>| t@).subrange(lo as int, hi as int),
            ),
        },
{
    let ghost tview = toks@.map_values(|t: Vec<char>| t@);
    let mut v: Vec<u16> = Vec::new();
    let mut k: usize = lo;
    while k < hi
        invariant
            lo <= k <= hi <= toks@.len(),
            tview == toks@.map_values(|t: Vec<char>| t@),
            v@.len() == k - lo,
            forall|i: int| lo <= i < k ==> spec_valid_group(#[trigger] tview[i]),
            forall|i: int|
                0 <= i < v@.len() ==> (#[trigger] v@[i]) as nat == spec_hex_seq_val(
                    tview[lo + i],
                ),
        decreases hi - k,
    {
        match parse_group(toks.get(k).unwrap()) {
            Some(g) => {
                proof {
                    lemma_hex_val_bound(tview[k as int]);
                    assert(g as nat == spec_hex_seq_val(tview[k as int]));
                }
                v.push(g);
            },
            None => {
                proof {
                    assert(!spec_valid_group(
                        tview.subrange(lo as int, hi as int)[k - lo as int],
                    ));
                }
                return None;
            },
        }
        k = k + 1;
    }
    proof {
        assert forall|i: int|
            0 <= i < tview.subrange(lo as int, hi as int).len() implies spec_valid_group(
            #[trigger] tview.subrange(lo as int, hi as int)[i],
        ) by {
            assert(tview.subrange(lo as int, hi as int)[i] == tview[lo + i]);
        }
    }
    Some(v)
}

/// Powers of 2^16; the value space of `k` address groups.
spec fn spec_pow16(k: nat) -> nat
    decreases k,
{
    if k == 0 {
        1
    } else {
        0x1_0000 * spec_pow16((k - 1) as nat)
    }
}

/// The combined value of at most eight groups fits the address width.
proof fn lemma_combine_bound(gs: Seq<nat>)
    requires
        forall|i: int| 0 <= i < gs.len() ==> #[trigger] gs[i] < 0x1_0000,
    ensures
        spec_combine(gs) < spec_pow16(gs.len()),
    decreases gs.len(),
{
    if gs.len() > 0 {
        lemma_combine_bound(gs.drop_last());
        assert(gs.last() < 0x1_0000);
    }
}

/// The values of at most eight groups, each below 2^16, combine to less
/// than 2^128.
proof fn lemma_combine_u128(gs: Seq<nat>)
    requires
        forall|i: int| 0 <= i < gs.len() ==> #[trigger] gs[i] < 0x1_0000,
        gs.len() <= 8,
    ensures
        spec_combine(gs) < 0x1_0000_0000_0000_0000_0000_0000_0000_0000,
{
    lemma_combine_bound(gs);
    assert(spec_pow16(0) == 1 && spec_pow16(1) == 0x1_0000 && spec_pow16(2) == 0x1_0000_0000
        && spec_pow16(3) == 0x1_0000_0000_0000 && spec_pow16(4) == 0x1_0000_0000_0000_0000
        && spec_pow16(5) == 0x1_0000_0000_0000_0000_0000 && spec_pow16(6)
        == 0x1_0000_0000_0000_0000_0000_0000 && spec_pow16(7)
        == 0x1_0000_0000_0000_0000_0000_0000_0000 && spec_pow16(8)
        == 0x1_0000_0000_0000_0000_0000_0000_0000_0000);
}

/// Every value among valid groups is below 2^16.
proof fn lemma_group_vals_elements(toks: Seq<Seq<char>>)
    requires
        spec_all_valid_groups(toks),
    ensures
        forall|i: int| 0 <= i < toks.len() ==> #[trigger] spec_group_vals(toks)[i] < 0x1_0000,
{
    assert forall|i: int| 0 <= i < toks.len() implies #[trigger] spec_group_vals(toks)[i]
        < 0x1_0000 by {
        lemma_hex_val_bound(toks[i]);
    }
}

/// Combines eight 16-bit segments into the 128-bit address they denote.
fn combine_segs(segs: &Vec<u16>) -> (r: u128)
    requires
        segs@.len() == 8,
    ensures
        r as nat == spec_combine(segs@.map_values(|g: u16| g as nat)),
{
    let ghost gview = segs@.map_values(|g: u16| g as nat);
    proof {
        assert(spec_pow16(0) == 1 && spec_pow16(1) == 0x1_0000 && spec_pow16(2) == 0x1_0000_0000
            && spec_pow16(3) == 0x1_0000_0000_0000 && spec_pow16(4) == 0x1_0000_0000_0000_0000
            && spec_pow16(5) == 0x1_0000_0000_0000_0000_0000 && spec_pow16(6)
            == 0x1_0000_0000_0000_0000_0000_0000 && spec_pow16(7)
            == 0x1_0000_0000_0000_0000_0000_0000_0000 && spec_pow16(8)
            == 0x1_0000_0000_0000_0000_0000_0000_0000_0000);
    }
    let mut val: u128 = 0;
    let mut k: usize = 0;
    proof {
        assert(gview.take(0) =~= Seq::<nat>::empty());
    }
    while k < 8
        invariant
            k <= 8,
            segs@.len() == 8,
            gview == segs@.map_values(|g: u16| g as nat),
            val as nat == spec_combine(gview.take(k as int)),
            (val as nat) < spec_pow16(k as nat),
            spec_pow16(7) == 0x1_0000_0000_0000_0000_0000_0000_0000,
        decreases 8 - k,
    {
        proof {
            lemma_combine_bound(gview.take(k as int));
            assert(forall|i: int|
                0 <= i < gview.take(k as int).len() ==> #[trigger] gview.take(k as int)[i]
                    < 0x1_0000);
            assert(spec_pow16(k as nat) <= spec_pow16(7)) by {
                assert(spec_pow16(0) <= spec_pow16(1) <= spec_pow16(2) <= spec_pow16(3)
                    <= spec_pow16(4) <= spec_pow16(5) <= spec_pow16(6) <= spec_pow16(7));
            }
            assert(gview.take(k + 1).drop_last() =~= gview.take(k as int));
            assert(gview.take(k + 1).last() == gview[k as int]);
        }
        let g = *segs.get(k).unwrap();
        val = val * 0x1_0000 + g as u128;
        k = k + 1;
    }
    proof {
        assert(gview.take(8) =~= gview);
    }
    val
}

/// Parses a colon-hex IPv6 address; `Some` exactly when the text matches
/// the grammar (eight groups, or fewer with one `::`).
pub(crate) fn parse_v6_addr(s: &str) -> (r: Option<u128>)
    ensures
        r == spec_parse_v6(s@),
{
    let toks = split_tokens(s, ':');
    let ghost tview = toks@.map_values(|t: Vec<char>| t@);
    let len = toks.len();
    if len == 8 && all_nonempty_range(&toks, 0, 8) {
        // plain form: eight groups
        match parse_groups_range(&toks, 0, 8) {
            Some(segs) => {
                let v = combine_segs(&segs);
                proof {
                    assert(tview.subrange(0, 8) =~= tview);
                    assert(segs@.map_values(|g: u16| g as nat) =~= spec_group_vals(tview));
                    lemma_group_vals_elements(tview);
                    lemma_combine_u128(spec_group_vals(tview));
                }
                Some(v)
            },
            None => {
                proof {
                    assert(tview.subrange(0, 8) =~= tview);
                    assert(spec_first_empty(tview, 0) == 8) by {
                        assert forall|i: int| 0 <= i < 8 implies tview[i].len() > 0 by {}
                        lemma_first_empty_none(tview);
                    }
                }
                None
            },
        }
    } else if len == 3 && toks.get(0).unwrap().len() == 0 && toks.get(1).unwrap().len() == 0
        && toks.get(2).unwrap().len() == 0 {
        proof {
            assert(tview[0].len() == 0 && tview[1].len() == 0 && tview[2].len() == 0);
        }
        Some(0)
    } else if len >= 3 && toks.get(0).unwrap().len() == 0 && toks.get(1).unwrap().len() == 0
        && all_nonempty_range(&toks, 2, len) {
        // leading "::"
        proof {
            assert(tview[0].len() == 0 && tview[1].len() == 0);
        }
        if len - 2 > 7 {
            proof {
                assert(tview.skip(2).len() > 7);
            }
            return None;
        }
        match parse_groups_range(&toks, 2, len) {
            Some(tail_vals) => {
                let v = assemble_compressed(&Vec::new(), &tail_vals);
                proof {
                    lemma_tail_subrange(tview, 2);
                    let tail = tview.skip(2);
                    assert(tail_vals@.map_values(|g: u16| g as nat) =~= spec_group_vals(tail));
                    assert(spec_group_vals(Seq::<Seq<char>>::empty()) =~= Seq::<nat>::empty());
                    let full = spec_group_vals(Seq::<Seq<char>>::empty()) + Seq::new(
                        (8 - tail.len()) as nat,
                        |i: int| 0nat,
                    ) + spec_group_vals(tail);
                    assert(Seq::<nat>::empty() + Seq::new((8 - tail.len()) as nat, |i: int| 0nat)
                        + tail_vals@.map_values(|g: u16| g as nat) =~= full);
                    assert(forall|i: int| 0 <= i < full.len() ==> #[trigger] full[i] < 0x1_0000)
                        by {
                        lemma_group_vals_elements(tail);
                    }
                    lemma_combine_u128(full);
                }
                Some(v)
            },
            None => {
                proof {
                    lemma_tail_subrange(tview, 2);
                }
                None
            },
        }
    } else if len >= 3 && toks.get(len - 1).unwrap().len() == 0 && toks.get(
        len - 2,
    ).unwrap().len() == 0 && all_nonempty_range(&toks, 0, len - 2) {
        // trailing "::"
        proof {
            assert(tview[len - 1].len() == 0 && tview[len - 2].len() == 0);
        }
        if len - 2 > 7 {
            proof {
                assert(tview.take(len - 2).len() > 7);
            }
            return None;
        }
        match parse_groups_range(&toks, 0, len - 2) {
            Some(head_vals) => {
                let v = assemble_compressed(&head_vals, &Vec::new());
                proof {
                    assert(tview.subrange(0, len - 2) =~= tview.take(len - 2));
                    let head = tview.take(len - 2);
                    assert(head_vals@.map_values(|g: u16| g as nat) =~= spec_group_vals(head));
                    assert(spec_group_vals(Seq::<Seq<char>>::empty()) =~= Seq::<nat>::empty());
                    let full = spec_group_vals(head) + Seq::new(
                        (8 - head.len()) as nat,
                        |i: int| 0nat,
                    ) + spec_group_vals(Seq::<Seq<char>>::empty());
                    assert(head_vals@.map_values(|g: u16| g as nat) + Seq::new(
                        (8 - head.len()) as nat,
                        |i: int| 0nat,
                    ) + Seq::<nat>::empty() =~= full);
                    assert(forall|i: int| 0 <= i < full.len() ==> #[trigger] full[i] < 0x1_0000)
                        by {
                        lemma_group_vals_elements(head);
                    }
                    lemma_combine_u128(full);
                }
                Some(v)
            },
            None => {
                proof {
                    assert(tview.subrange(0, len - 2) =~= tview.take(len - 2));
                }
                None
            },
        }
    } else {
        let e = first_empty_from(&toks, 0);
        if len >= 3 && 0 < e && e < len - 1 && all_nonempty_range(&toks, e + 1, len) {
            // one "::" in the middle
            if (e) + (len - e - 1) > 7 {
                proof {
                    assert(tview.take(e as int).len() + tview.skip(e + 1).len() > 7);
                }
                return None;
            }
            let head_vals = match parse_groups_range(&toks, 0, e) {
                Some(v) => v,
                None => {
                    proof {
                        assert(tview.subrange(0, e as int) =~= tview.take(e as int));
                    }
                    return None;
                },
            };
            let tail_vals = match parse_groups_range(&toks, e + 1, len) {
                Some(v) => v,
                None => {
                    proof {
                        lemma_tail_subrange(tview, e + 1);
                        assert(tview.subrange(0, e as int) =~= tview.take(e as int));
                    }
                    return None;
                },
            };
            let v = assemble_compressed(&head_vals, &tail_vals);
            proof {
                lemma_tail_subrange(tview, e + 1);
                assert(tview.subrange(0, e as int) =~= tview.take(e as int));
                let head = tview.take(e as int);
                let tail = tview.skip(e + 1);
                assert(head_vals@.map_values(|g: u16| g as nat) =~= spec_group_vals(head));
                assert(tail_vals@.map_values(|g: u16| g as nat) =~= spec_group_vals(tail));
                let full = spec_group_vals(head) + Seq::new(
                    (8 - head.len() - tail.len()) as nat,
                    |i: int| 0nat,
                ) + spec_group_vals(tail);
                assert(head_vals@.map_values(|g: u16| g as nat) + Seq::new(
                    (8 - head_vals@.len() - tail_vals@.len()) as nat,
                    |i: int| 0nat,
                ) + tail_vals@.map_values(|g: u16| g as nat) =~= full);
                assert(forall|i: int| 0 <= i < full.len() ==> #[trigger] full[i] < 0x1_0000) by {
                    lemma_group_vals_elements(head);
                    lemma_group_vals_elements(tail);
                }
                lemma_combine_u128(full);
            }
            Some(v)
        } else {
            None
        }
    }
}

/// A subrange to the end is the same tokens as `skip`.
proof fn lemma_tail_subrange(tview: Seq<Seq<char>>, lo: int)
    requires
        0 <= lo <= tview.len(),
    ensures
        tview.subrange(lo, tview.len() as int) =~= tview.skip(lo),
{
}

/// When no token is empty, the first-empty scan runs to the end.
proof fn lemma_first_empty_none(tview: Seq<Seq<char>>)
    requires
        forall|i: int| 0 <= i < tview.len() ==> (#[trigger] tview[i]).len() > 0,
    ensures
        spec_first_empty(tview, 0) == tview.len(),
{
    lemma_first_empty_none_from(tview, 0);
}

proof fn lemma_first_empty_none_from(tview: Seq<Seq<char>>, i: int)
    requires
        0 <= i <= tview.len(),
        forall|j: int| 0 <= j < tview.len() ==> (#[trigger] tview[j]).len() > 0,
    ensures
        spec_first_empty(tview, i) == tview.len(),
    decreases tview.len() - i,
{
    if i < tview.len() {
        lemma_first_empty_none_from(tview, i + 1);
    }
}

/// Builds the full eight segments of a `::`-compressed address — head
/// groups, zeros, tail groups — and combines them.
fn assemble_compressed(head_vals: &Vec<u16>, tail_vals: &Vec<u16>) -> (r: u128)
    requires
        head_vals@.len() + tail_vals@.len() <= 7,
    ensures
        r as nat == spec_combine(
            head_vals@.map_values(|g: u16| g as nat) + Seq::new(
                (8 - head_vals@.len() - tail_vals@.len()) as nat,
                |i: int| 0nat,
            ) + tail_vals@.map_values(|g: u16| g as nat),
        ),
{
    let h = head_vals.len();
    let t = tail_vals.len();
    let mut segs: Vec<u16> = Vec::new();
    let mut k: usize = 0;
    while k < h
        invariant
            k <= h,
            h == head_vals@.len(),
            segs@ =~= head_vals@.take(k as int),
        decreases h - k,
    {
        segs.push(*head_vals.get(k).unwrap());
        proof {
            assert(segs@ =~= head_vals@.take(k + 1));
        }
        k = k + 1;
    }
    let mut z: usize = 0;
    while z < 8 - h - t
        invariant
            z <= 8 - h - t,
            h == head_vals@.len(),
            t == tail_vals@.len(),
            h + t <= 7,
            segs@ =~= head_vals@ + Seq::new(z as nat, |i: int| 0u16),
        decreases 8 - h - t - z,
    {
        segs.push(0);
        proof {
            assert(segs@ =~= head_vals@ + Seq::new((z + 1) as nat, |i: int| 0u16));
        }
        z = z + 1;
    }
    let mut j: usize = 0;
    while j < t
        invariant
            j <= t,
            h == head_vals@.len(),
            t == tail_vals@.len(),
            h + t <= 7,
            segs@ =~= head_vals@ + Seq::new((8 - h - t) as nat, |i: int| 0u16) + tail_vals@.take(
                j as int,
            ),
        decreases t - j,
    {
        segs.push(*tail_vals.get(j).unwrap());
        proof {
            assert(segs@ =~= head_vals@ + Seq::new((8 - h - t) as nat, |i: int| 0u16)
                + tail_vals@.take(j + 1));
        }
        j = j + 1;
    }
    proof {
        assert(tail_vals@.take(t as int) =~= tail_vals@);
        assert(segs@.len() == 8);
    }
    let r = combine_segs(&segs);
    proof {
        assert(segs@.map_values(|g: u16| g as nat) =~= head_vals@.map_values(|g: u16| g as nat)
            + Seq::new((8 - h - t) as nat, |i: int| 0nat) + tail_vals@.map_values(
            |g: u16| g as nat,
        ));
    }
    r
}

// ----- whole networks as text -----

/// The canonical text of an IPv4 network: dotted quad, `/`, decimal prefix.
pub open spec fn spec_fmt_net_v4(a: u32, p: u8) -> Seq<char> {
    spec_fmt_v4(a) + seq!['/'] + spec_fmt_dec(p as nat)
}

/// The canonical text of an IPv6 network: colon hex, `/`, decimal prefix.
pub open spec fn spec_fmt_net_v6(a: u128, p: u8) -> Seq<char> {
    spec_fmt_v6(a) + seq!['/'] + spec_fmt_dec(p as nat)
}

/// What parsing an IPv4 network from CIDR text yields: the address and
/// netmask on success, or the first error in the order the text is read:
/// the split, the address, the netmask's digits, then the strict
/// constructor's checks.
pub open spec fn spec_from_str_v4(s: Seq<char>) -> Result<(u32, u8), crate::IpNetworkParseError> {
    match crate::helpers::spec_split_ip_netmask(s) {
        None => Err(crate::IpNetworkParseError::InvalidFormatError),
        Some((ip, mask)) => match spec_parse_v4(ip) {
            None => Err(crate::IpNetworkParseError::AddrParseError),
            Some(a) => if !spec_valid_netmask_token(mask) {
                Err(crate::IpNetworkParseError::InvalidNetmaskFormat)
            } else {
                let m = spec_dec_val(mask) as u8;
                if m > 32 {
                    Err(
                        crate::IpNetworkParseError::IpNetworkError(
                            crate::IpNetworkError::NetmaskError(m),
                        ),
                    )
                } else if a & crate::helpers::spec_bite_mask(m) != a {
                    Err(
                        crate::IpNetworkParseError::IpNetworkError(
                            crate::IpNetworkError::HostBitsSet,
                        ),
                    )
                } else {
                    Ok((a, m))
                }
            },
        },
    }
}

/// What parsing an IPv6 network from CIDR text yields; as for IPv4, with
/// the IPv6 address grammar and width.
pub open spec fn spec_from_str_v6(s: Seq<char>) -> Result<(u128, u8), crate::IpNetworkParseError> {
    match crate::helpers::spec_split_ip_netmask(s) {
        None => Err(crate::IpNetworkParseError::InvalidFormatError),
        Some((ip, mask)) => match spec_parse_v6(ip) {
            None => Err(crate::IpNetworkParseError::AddrParseError),
            Some(a) => if !spec_valid_netmask_token(mask) {
                Err(crate::IpNetworkParseError::InvalidNetmaskFormat)
            } else {
                let m = spec_dec_val(mask) as u8;
                if m > 128 {
                    Err(
                        crate::IpNetworkParseError::IpNetworkError(
                            crate::IpNetworkError::NetmaskError(m),
                        ),
                    )
                } else if a & crate::helpers::spec_bite_mask_u128(m) != a {
                    Err(
                        crate::IpNetworkParseError::IpNetworkError(
                            crate::IpNetworkError::HostBitsSet,
                        ),
                    )
                } else {
                    Ok((a, m))
                }
            },
        },
    }
}

/// What parsing a version-agnostic network from CIDR text yields: the
/// netmask's digits are checked first, then the address is read as IPv4,
/// else as IPv6, and the strict constructor of that family decides.
pub open spec fn spec_from_str_ip(s: Seq<char>) -> Result<
    (crate::IpAddr, u8),
    crate::IpNetworkParseError,
> {
    match crate::helpers::spec_split_ip_netmask(s) {
        None => Err(crate::IpNetworkParseError::InvalidFormatError),
        Some((ip, mask)) => if !spec_valid_netmask_token(mask) {
            Err(crate::IpNetworkParseError::InvalidNetmaskFormat)
        } else {
            let m = spec_dec_val(mask) as u8;
            match spec_parse_v4(ip) {
                Some(a) => if m > 32 {
                    Err(
                        crate::IpNetworkParseError::IpNetworkError(
                            crate::IpNetworkError::NetmaskError(m),
                        ),
                    )
                } else if a & crate::helpers::spec_bite_mask(m) != a {
                    Err(
                        crate::IpNetworkParseError::IpNetworkError(
                            crate::IpNetworkError::HostBitsSet,
                        ),
                    )
                } else {
                    Ok((crate::IpAddr::V4(a), m))
                },
                None => match spec_parse_v6(ip) {
                    Some(a) => if m > 128 {
                        Err(
                            crate::IpNetworkParseError::IpNetworkError(
                                crate::IpNetworkError::NetmaskError(m),
                            ),
                        )
                    } else if a & crate::helpers::spec_bite_mask_u128(m) != a {
                        Err(
                            crate::IpNetworkParseError::IpNetworkError(
                                crate::IpNetworkError::HostBitsSet,
                            ),
                        )
                    } else {
                        Ok((crate::IpAddr::V6(a), m))
                    },
                    None => Err(crate::IpNetworkParseError::AddrParseError),
                },
            }
        },
    }
}

/// The characters of `s`, one by one.
fn chars_vec(s: &str) -> (r: Vec<char>)
    ensures
        r@ == s@,
{
    let n: usize = s.unicode_len();
    let mut v: Vec<char> = Vec::new();
    let mut i: usize = 0;
    proof {
        assert(v@ =~= s@.take(0));
    }
    while i < n
        invariant
            i <= n,
            n == s@.len(),
            v@ == s@.take(i as int),
        decreases n - i,
    {
        v.push(s.get_char(i));
        proof {
            assert(v@ =~= s@.take(i + 1));
        }
        i = i + 1;
    }
    proof {
        assert(s@.take(n as int) =~= s@);
    }
    v
}

impl crate::Ipv4Network {
    /// Parses CIDR notation X.X.X.X/Y through the strict constructor.
    pub fn from_str(s: &str) -> (r: Result<Self, crate::IpNetworkParseError>)
        ensures
            match spec_from_str_v4(s@) {
                Ok((a, m)) => {
                    &&& r is Ok
                    &&& r->Ok_0.spec_network_address() == a
                    &&& r->Ok_0.spec_netmask() == m
                },
                Err(e) => r == Err::<Self, crate::IpNetworkParseError>(e),
            },
    {
        let parts = match crate::helpers::split_ip_netmask(s) {
            Some(p) => p,
            None => { return Err(crate::IpNetworkParseError::InvalidFormatError) },
        };
        let a = match parse_v4_addr(parts.0) {
            Some(a) => a,
            None => { return Err(crate::IpNetworkParseError::AddrParseError) },
        };
        let mask_chars = chars_vec(parts.1);
        let m = match parse_netmask_token(&mask_chars) {
            Some(m) => m,
            None => { return Err(crate::IpNetworkParseError::InvalidNetmaskFormat) },
        };
        match Self::new(a, m) {
            Ok(network) => Ok(network),
            Err(e) => Err(crate::IpNetworkParseError::IpNetworkError(e)),
        }
    }
}

impl crate::Ipv6Network {
    /// Parses CIDR notation X:X::X/Y through the strict constructor.
    pub fn from_str(s: &str) -> (r: Result<Self, crate::IpNetworkParseError>)
        ensures
            match spec_from_str_v6(s@) {
                Ok((a, m)) => {
                    &&& r is Ok
                    &&& r->Ok_0.spec_network_address() == a
                    &&& r->Ok_0.spec_netmask() == m
                },
                Err(e) => r == Err::<Self, crate::IpNetworkParseError>(e),
            },
    {
        let parts = match crate::helpers::split_ip_netmask(s) {
            Some(p) => p,
            None => { return Err(crate::IpNetworkParseError::InvalidFormatError) },
        };
        let a = match parse_v6_addr(parts.0) {
            Some(a) => a,
            None => { return Err(crate::IpNetworkParseError::AddrParseError) },
        };
        let mask_chars = chars_vec(parts.1);
        let m = match parse_netmask_token(&mask_chars) {
            Some(m) => m,
            None => { return Err(crate::IpNetworkParseError::InvalidNetmaskFormat) },
        };
        match Self::new(a, m) {
            Ok(network) => Ok(network),
            Err(e) => Err(crate::IpNetworkParseError::IpNetworkError(e)),
        }
    }
}

impl crate::IpNetwork {
    /// Parses CIDR notation of either family: the netmask's digits are
    /// checked first, then the address is read as IPv4, else as IPv6.
    pub fn from_str(s: &str) -> (r: Result<Self, crate::IpNetworkParseError>)
        ensures
            match spec_from_str_ip(s@) {
                Ok((a, m)) => match a {
                    crate::IpAddr::V4(addr) => {
                        &&& r is Ok
                        &&& r->Ok_0 is V4
                        &&& r->Ok_0->V4_0.spec_network_address() == addr
                        &&& r->Ok_0->V4_0.spec_netmask() == m
                    },
                    crate::IpAddr::V6(addr) => {
                        &&& r is Ok
                        &&& r->Ok_0 is V6
                        &&& r->Ok_0->V6_0.spec_network_address() == addr
                        &&& r->Ok_0->V6_0.spec_netmask() == m
                    },
                },
                Err(e) => r == Err::<Self, crate::IpNetworkParseError>(e),
            },
    {
        let parts = match crate::helpers::split_ip_netmask(s) {
            Some(p) => p,
            None => { return Err(crate::IpNetworkParseError::InvalidFormatError) },
        };
        let mask_chars = chars_vec(parts.1);
        let m = match parse_netmask_token(&mask_chars) {
            Some(m) => m,
            None => { return Err(crate::IpNetworkParseError::InvalidNetmaskFormat) },
        };
        if let Some(a) = parse_v4_addr(parts.0) {
            match crate::Ipv4Network::new(a, m) {
                Ok(network) => Ok(crate::IpNetwork::V4(network)),
                Err(e) => Err(crate::IpNetworkParseError::IpNetworkError(e)),
            }
        } else if let Some(a) = parse_v6_addr(parts.0) {
            match crate::Ipv6Network::new(a, m) {
                Ok(network) => Ok(crate::IpNetwork::V6(network)),
                Err(e) => Err(crate::IpNetworkParseError::IpNetworkError(e)),
            }
        } else {
            Err(crate::IpNetworkParseError::AddrParseError)
        }
    }
}

// ----- round trips -----

/// Shape of a formatted decimal number: at least one character, digits
/// only, no leading zero unless the number is zero, and at most as many
/// digits as the magnitude needs.
pub(crate) proof fn lemma_fmt_dec_props(n: nat)
    ensures
        spec_fmt_dec(n).len() >= 1,
        spec_all_digits(spec_fmt_dec(n)),
        n <= 9 ==> spec_fmt_dec(n).len() == 1,
        n <= 99 ==> spec_fmt_dec(n).len() <= 2,
        n <= 999 ==> spec_fmt_dec(n).len() <= 3,
        n >= 1 ==> spec_fmt_dec(n)[0] != '0',
    decreases n,
{
    if n < 10 {
        assert(spec_is_digit(spec_digit_char(n)));
        assert(spec_all_digits(seq![spec_digit_char(n)])) by {
            assert(seq![spec_digit_char(n)][0] == spec_digit_char(n));
        }
    } else {
        lemma_fmt_dec_props(n / 10);
        let u = spec_fmt_dec(n / 10);
        let d = spec_digit_char(n % 10);
        assert(spec_is_digit(d));
        assert(spec_all_digits(u.push(d))) by {
            assert(forall|i: int|
                0 <= i < u.len() ==> #[trigger] u.push(d)[i] == u[i] && spec_is_digit(u[i]));
            assert(u.push(d)[u.len() as int] == d);
        }
        assert(u.push(d)[0] == u[0]);
    }
}

/// A decimal digit character denotes the value it was made from.
pub(crate) proof fn lemma_digit_char_val(d: nat)
    requires
        d <= 9,
    ensures
        spec_digit_val(spec_digit_char(d)) == d,
{
}

/// Parsing the decimal form of a number gives the number back.
pub(crate) proof fn lemma_dec_roundtrip(n: nat)
    ensures
        spec_dec_val(spec_fmt_dec(n)) == n,
    decreases n,
{
    if n < 10 {
        lemma_digit_char_val(n);
        let s = spec_fmt_dec(n);
        assert(s == seq![spec_digit_char(n)]);
        assert(s.drop_last() =~= Seq::<char>::empty());
        assert(s.last() == spec_digit_char(n));
        assert(spec_dec_val(Seq::<char>::empty()) == 0);
        assert(spec_dec_val(s) == 10 * spec_dec_val(s.drop_last()) + spec_digit_val(s.last()));
    } else {
        lemma_dec_roundtrip(n / 10);
        lemma_digit_char_val(n % 10);
        let u = spec_fmt_dec(n / 10);
        let d = spec_digit_char(n % 10);
        assert(u.push(d).drop_last() =~= u);
        assert(u.push(d).last() == d);
        assert(spec_dec_val(u.push(d)) == 10 * spec_dec_val(u) + spec_digit_val(d));
    }
}

/// Bounds and recombination of the four octets of a 32-bit address.
pub(crate) proof fn lemma_v4_octets(a: u32)
    by (bit_vector)
    ensures
        (a >> 24u32) & 0xff < 256,
        (a >> 16u32) & 0xff < 256,
        (a >> 8u32) & 0xff < 256,
        a & 0xff < 256,
        ((a >> 24u32) & 0xff) * 0x100_0000 + ((a >> 16u32) & 0xff) * 0x1_0000 + ((a >> 8u32)
            & 0xff) * 0x100 + (a & 0xff) == a,
{
}

/// No character of a formatted octet is a separator.
pub(crate) proof fn lemma_digits_not_sep(s: Seq<char>, c: char)
    requires
        spec_all_digits(s),
        !spec_is_digit(c),
    ensures
        forall|j: int| 0 <= j < s.len() ==> s[j] != c,
{
    assert forall|j: int| 0 <= j < s.len() implies s[j] != c by {
        assert(spec_is_digit(s[j]));
    }
}

/// Parsing the dotted-quad form of an address gives the address back.
#[verifier::rlimit(100)]
#[verifier::spinoff_prover]
pub(crate) proof fn lemma_v4_roundtrip(a: u32)
    ensures
        spec_parse_v4(spec_fmt_v4(a)) == Some(a),
{
    lemma_v4_octets(a);
    let o0 = spec_octet(a, 0);
    let o1 = spec_octet(a, 1);
    let o2 = spec_octet(a, 2);
    let o3 = spec_octet(a, 3);
    let d0 = spec_fmt_dec(o0);
    let d1 = spec_fmt_dec(o1);
    let d2 = spec_fmt_dec(o2);
    let d3 = spec_fmt_dec(o3);
    lemma_fmt_dec_props(o0);
    lemma_fmt_dec_props(o1);
    lemma_fmt_dec_props(o2);
    lemma_fmt_dec_props(o3);
    lemma_dec_roundtrip(o0);
    lemma_dec_roundtrip(o1);
    lemma_dec_roundtrip(o2);
    lemma_dec_roundtrip(o3);
    let w1 = d1 + seq!['.'] + d2 + seq!['.'] + d3;
    let w2 = d2 + seq!['.'] + d3;
    lemma_digits_not_sep(d0, '.');
    lemma_digits_not_sep(d1, '.');
    lemma_digits_not_sep(d2, '.');
    lemma_digits_not_sep(d3, '.');
    assert(spec_fmt_v4(a) =~= d0 + seq!['.'] + w1);
    lemma_split_sep(d0, w1, '.');
    assert(w1 =~= d1 + seq!['.'] + w2);
    lemma_split_sep(d1, w2, '.');
    lemma_split_sep(d2, d3, '.');
    lemma_split_no_sep(d3, '.');
    let toks = spec_split(spec_fmt_v4(a), '.');
    assert(toks =~= seq![d0, d1, d2, d3]);
    assert(spec_valid_octet(d0) && spec_valid_octet(d1) && spec_valid_octet(d2)
        && spec_valid_octet(d3));
    assert(spec_dec_val(toks[0]) * 0x100_0000 + spec_dec_val(toks[1]) * 0x1_0000 + spec_dec_val(
        toks[2],
    ) * 0x100 + spec_dec_val(toks[3]) == a);
}

/// Shape of the whole-network text: the slash between the address and the
/// netmask is the first slash of the string.
pub(crate) proof fn lemma_split_net_text(u: Seq<char>, w: Seq<char>)
    requires
        forall|j: int| 0 <= j < u.len() ==> u[j] != '/',
        forall|j: int| 0 <= j < w.len() ==> w[j] != '/',
        u.len() >= 1,
        w.len() >= 1,
    ensures
        crate::helpers::spec_split_ip_netmask(u + seq!['/'] + w) == Some((u, w)),
{
    let s = u + seq!['/'] + w;
    crate::helpers::lemma_first_slash_props(s);
    let f = crate::helpers::spec_first_slash(s);
    assert(s[u.len() as int] == '/');
    assert(f >= 0) by {
        if f < 0 {
            assert(s[u.len() as int] != '/');
        }
    }
    assert(f == u.len()) by {
        if f < u.len() {
            assert(s[f] == u[f]);
        } else if f > u.len() {
            assert(s[u.len() as int] != '/');
        }
    }
    assert(s.subrange(0, f) =~= u);
    assert(s.subrange(f + 1, s.len() as int) =~= w);
}

/// Round trip (IPv4): parsing the canonical text of any valid network
/// yields exactly the network's address and netmask.
pub proof fn lemma_roundtrip_v4(a: u32, p: u8)
    requires
        p <= 32,
        a & crate::helpers::spec_bite_mask(p) == a,
    ensures
        spec_from_str_v4(spec_fmt_net_v4(a, p)) == Ok::<(u32, u8), crate::IpNetworkParseError>(
            (a, p),
        ),
{
    let u = spec_fmt_v4(a);
    let w = spec_fmt_dec(p as nat);
    lemma_fmt_dec_props(p as nat);
    lemma_dec_roundtrip(p as nat);
    lemma_v4_octets(a);
    lemma_fmt_dec_props(spec_octet(a, 0));
    lemma_fmt_dec_props(spec_octet(a, 1));
    lemma_fmt_dec_props(spec_octet(a, 2));
    lemma_fmt_dec_props(spec_octet(a, 3));
    assert(forall|j: int| 0 <= j < u.len() ==> u[j] != '/') by {
        lemma_v4_text_no_slash(a);
    }
    lemma_digits_not_sep(w, '/');
    assert(u.len() >= 1);
    assert(spec_fmt_net_v4(a, p) =~= u + seq!['/'] + w);
    lemma_split_net_text(u, w);
    lemma_v4_roundtrip(a);
}

/// The dotted-quad text holds only digits and dots.
pub(crate) proof fn lemma_v4_text_no_slash(a: u32)
    ensures
        forall|j: int| 0 <= j < spec_fmt_v4(a).len() ==> spec_fmt_v4(a)[j] != '/',
{
    lemma_fmt_dec_props(spec_octet(a, 0));
    lemma_fmt_dec_props(spec_octet(a, 1));
    lemma_fmt_dec_props(spec_octet(a, 2));
    lemma_fmt_dec_props(spec_octet(a, 3));
    let d0 = spec_fmt_dec(spec_octet(a, 0));
    let d1 = spec_fmt_dec(spec_octet(a, 1));
    let d2 = spec_fmt_dec(spec_octet(a, 2));
    let d3 = spec_fmt_dec(spec_octet(a, 3));
    lemma_digits_not_sep(d0, '/');
    lemma_digits_not_sep(d1, '/');
    lemma_digits_not_sep(d2, '/');
    lemma_digits_not_sep(d3, '/');
    assert forall|j: int| 0 <= j < spec_fmt_v4(a).len() implies spec_fmt_v4(a)[j] != '/' by {
        let s = spec_fmt_v4(a);
        assert(s =~= d0 + seq!['.'] + d1 + seq!['.'] + d2 + seq!['.'] + d3);
        if j < d0.len() {
            assert(s[j] == d0[j]);
        } else if j == d0.len() {
            assert(s[j] == '.');
        } else if j < d0.len() + 1 + d1.len() {
            assert(s[j] == d1[j - d0.len() - 1]);
        } else if j == d0.len() + 1 + d1.len() {
            assert(s[j] == '.');
        } else if j < d0.len() + 1 + d1.len() + 1 + d2.len() {
            assert(s[j] == d2[j - d0.len() - 1 - d1.len() - 1]);
        } else if j == d0.len() + 1 + d1.len() + 1 + d2.len() {
            assert(s[j] == '.');
        } else {
            assert(s[j] == d3[j - d0.len() - 1 - d1.len() - 1 - d2.len() - 1]);
        }
    }
}

/// Shape of a formatted hex group: at least one character, hex digits
/// only, and at most four of them for a 16-bit value.
pub(crate) proof fn lemma_fmt_hex_props(n: nat)
    ensures
        spec_fmt_hex(n).len() >= 1,
        spec_all_hex_digits(spec_fmt_hex(n)),
        n <= 0xf ==> spec_fmt_hex(n).len() == 1,
        n <= 0xff ==> spec_fmt_hex(n).len() <= 2,
        n <= 0xfff ==> spec_fmt_hex(n).len() <= 3,
        n <= 0xffff ==> spec_fmt_hex(n).len() <= 4,
    decreases n,
{
    if n < 16 {
        assert(spec_is_hex_digit(spec_hex_char(n)));
        assert(spec_all_hex_digits(seq![spec_hex_char(n)])) by {
            assert(seq![spec_hex_char(n)][0] == spec_hex_char(n));
        }
    } else {
        lemma_fmt_hex_props(n / 16);
        let u = spec_fmt_hex(n / 16);
        let d = spec_hex_char(n % 16);
        assert(spec_is_hex_digit(d));
        assert(spec_all_hex_digits(u.push(d))) by {
            assert(forall|i: int|
                0 <= i < u.len() ==> #[trigger] u.push(d)[i] == u[i] && spec_is_hex_digit(u[i]));
            assert(u.push(d)[u.len() as int] == d);
        }
    }
}

/// A hex digit character denotes the value it was made from.
pub(crate) proof fn lemma_hex_char_val(d: nat)
    requires
        d <= 15,
    ensures
        spec_hex_val(spec_hex_char(d)) == d,
{
}

/// Parsing the hex form of a number gives the number back.
pub(crate) proof fn lemma_hex_roundtrip(n: nat)
    ensures
        spec_hex_seq_val(spec_fmt_hex(n)) == n,
    decreases n,
{
    if n < 16 {
        lemma_hex_char_val(n);
        let s = spec_fmt_hex(n);
        assert(s == seq![spec_hex_char(n)]);
        assert(s.drop_last() =~= Seq::<char>::empty());
        assert(s.last() == spec_hex_char(n));
        assert(spec_hex_seq_val(Seq::<char>::empty()) == 0);
        assert(spec_hex_seq_val(s) == 16 * spec_hex_seq_val(s.drop_last()) + spec_hex_val(
            s.last(),
        ));
    } else {
        lemma_hex_roundtrip(n / 16);
        lemma_hex_char_val(n % 16);
        let u = spec_fmt_hex(n / 16);
        let d = spec_hex_char(n % 16);
        assert(u.push(d).drop_last() =~= u);
        assert(u.push(d).last() == d);
        assert(spec_hex_seq_val(u.push(d)) == 16 * spec_hex_seq_val(u) + spec_hex_val(d));
    }
}

/// Bounds and recombination of the eight segments of a 128-bit address.
pub(crate) proof fn lemma_v6_segs(a: u128)
    by (bit_vector)
    ensures
        (a >> 112u32) & 0xffff < 0x1_0000,
        (a >> 96u32) & 0xffff < 0x1_0000,
        (a >> 80u32) & 0xffff < 0x1_0000,
        (a >> 64u32) & 0xffff < 0x1_0000,
        (a >> 48u32) & 0xffff < 0x1_0000,
        (a >> 32u32) & 0xffff < 0x1_0000,
        (a >> 16u32) & 0xffff < 0x1_0000,
        a & 0xffff < 0x1_0000,
        ((a >> 112u32) & 0xffff) * 0x1_0000_0000_0000_0000_0000_0000_0000 + ((a >> 96u32)
            & 0xffff) * 0x1_0000_0000_0000_0000_0000_0000 + ((a >> 80u32) & 0xffff)
            * 0x1_0000_0000_0000_0000_0000 + ((a >> 64u32) & 0xffff) * 0x1_0000_0000_0000_0000 + (
        (a >> 48u32) & 0xffff) * 0x1_0000_0000_0000 + ((a >> 32u32) & 0xffff) * 0x1_0000_0000 + ((
        a >> 16u32) & 0xffff) * 0x1_0000 + (a & 0xffff) == a,
        ((a >> 112u32) & 0xffff == 0 && (a >> 96u32) & 0xffff == 0 && (a >> 80u32) & 0xffff == 0
            && (a >> 64u32) & 0xffff == 0 && (a >> 48u32) & 0xffff == 0 && (a >> 32u32) & 0xffff
            == 0 && (a >> 16u32) & 0xffff == 0 && a & 0xffff == 0) ==> a == 0,
{
}

/// The combined value of an address's own segments is the address.
pub(crate) proof fn lemma_combine_segs_id(a: u128)
    ensures
        spec_combine(spec_segs(a).map_values(|g: u16| g as nat)) == a,
{
    lemma_v6_segs(a);
    let m = spec_segs(a).map_values(|g: u16| g as nat);
    assert(m.len() == 8);
    assert(m.take(0) =~= Seq::<nat>::empty());
    assert(m.take(1).drop_last() =~= m.take(0) && m.take(1).last() == m[0]);
    assert(m.take(2).drop_last() =~= m.take(1) && m.take(2).last() == m[1]);
    assert(m.take(3).drop_last() =~= m.take(2) && m.take(3).last() == m[2]);
    assert(m.take(4).drop_last() =~= m.take(3) && m.take(4).last() == m[3]);
    assert(m.take(5).drop_last() =~= m.take(4) && m.take(5).last() == m[4]);
    assert(m.take(6).drop_last() =~= m.take(5) && m.take(6).last() == m[5]);
    assert(m.take(7).drop_last() =~= m.take(6) && m.take(7).last() == m[6]);
    assert(m.take(8).drop_last() =~= m.take(7) && m.take(8).last() == m[7]);
    assert(m.take(8) =~= m);
    assert(m[0] == ((a >> 112u32) & 0xffff) as nat);
    assert(m[1] == ((a >> 96u32) & 0xffff) as nat);
    assert(m[2] == ((a >> 80u32) & 0xffff) as nat);
    assert(m[3] == ((a >> 64u32) & 0xffff) as nat);
    assert(m[4] == ((a >> 48u32) & 0xffff) as nat);
    assert(m[5] == ((a >> 32u32) & 0xffff) as nat);
    assert(m[6] == ((a >> 16u32) & 0xffff) as nat);
    assert(m[7] == (a & 0xffff) as nat);
    // expand the running value step by step into the flat sum
    assert(spec_combine(Seq::<nat>::empty()) == 0);
    assert(spec_combine(m.take(1)) == m[0]);
    assert(spec_combine(m.take(2)) == spec_combine(m.take(1)) * 0x1_0000 + m[1]);
    assert(spec_combine(m.take(3)) == spec_combine(m.take(2)) * 0x1_0000 + m[2]);
    assert(spec_combine(m.take(4)) == spec_combine(m.take(3)) * 0x1_0000 + m[3]);
    assert(spec_combine(m.take(5)) == spec_combine(m.take(4)) * 0x1_0000 + m[4]);
    assert(spec_combine(m.take(6)) == spec_combine(m.take(5)) * 0x1_0000 + m[5]);
    assert(spec_combine(m.take(7)) == spec_combine(m.take(6)) * 0x1_0000 + m[6]);
    assert(spec_combine(m.take(8)) == spec_combine(m.take(7)) * 0x1_0000 + m[7]);
    assert(spec_combine(m.take(2)) == m[0] * 0x1_0000 + m[1]);
    assert(spec_combine(m.take(3)) == m[0] * 0x1_0000_0000 + m[1] * 0x1_0000 + m[2]);
    assert(spec_combine(m.take(4)) == m[0] * 0x1_0000_0000_0000 + m[1] * 0x1_0000_0000 + m[2]
        * 0x1_0000 + m[3]);
    assert(spec_combine(m.take(5)) == m[0] * 0x1_0000_0000_0000_0000 + m[1] * 0x1_0000_0000_0000
        + m[2] * 0x1_0000_0000 + m[3] * 0x1_0000 + m[4]);
    assert(spec_combine(m.take(6)) == m[0] * 0x1_0000_0000_0000_0000_0000 + m[1]
        * 0x1_0000_0000_0000_0000 + m[2] * 0x1_0000_0000_0000 + m[3] * 0x1_0000_0000 + m[4]
        * 0x1_0000 + m[5]);
    assert(spec_combine(m.take(7)) == m[0] * 0x1_0000_0000_0000_0000_0000_0000 + m[1]
        * 0x1_0000_0000_0000_0000_0000 + m[2] * 0x1_0000_0000_0000_0000 + m[3] * 0x1_0000_0000_0000
        + m[4] * 0x1_0000_0000 + m[5] * 0x1_0000 + m[6]);
    assert(spec_combine(m.take(8)) == m[0] * 0x1_0000_0000_0000_0000_0000_0000_0000 + m[1]
        * 0x1_0000_0000_0000_0000_0000_0000 + m[2] * 0x1_0000_0000_0000_0000_0000 + m[3]
        * 0x1_0000_0000_0000_0000 + m[4] * 0x1_0000_0000_0000 + m[5] * 0x1_0000_0000 + m[6]
        * 0x1_0000 + m[7]);
}

/// No character of a hex group is anything but a hex digit.
pub(crate) proof fn lemma_hex_not_char(s: Seq<char>, c: char)
    requires
        spec_all_hex_digits(s),
        !spec_is_hex_digit(c),
    ensures
        forall|j: int| 0 <= j < s.len() ==> s[j] != c,
{
    assert forall|j: int| 0 <= j < s.len() implies s[j] != c by {
        assert(spec_is_hex_digit(s[j]));
    }
}

/// The zero run starting at `i`: it stays inside the segments, covers only
/// zero segments, and ends before a nonzero segment.
pub(crate) proof fn lemma_run_len_facts(segs: Seq<u16>, i: int)
    requires
        0 <= i <= segs.len(),
    ensures
        0 <= spec_run_len(segs, i) <= segs.len() - i,
        forall|k: int| i <= k < i + spec_run_len(segs, i) ==> segs[k] == 0,
        i + spec_run_len(segs, i) < segs.len() ==> segs[i + spec_run_len(segs, i)] != 0,
    decreases segs.len() - i,
{
    if i < segs.len() && segs[i] == 0 {
        lemma_run_len_facts(segs, i + 1);
    }
}

/// The start the formatter compresses at lies inside the segments.
pub(crate) proof fn lemma_best_run_bounds(segs: Seq<u16>, i: int)
    requires
        0 <= i <= segs.len(),
    ensures
        i <= spec_best_run(segs, i) <= segs.len(),
    decreases segs.len() - i,
{
    if i < segs.len() {
        lemma_best_run_bounds(segs, i + 1);
    }
}

/// A string starting with the separator splits into an empty first token.
pub(crate) proof fn lemma_split_leading_sep(s: Seq<char>, c: char)
    requires
        s.len() >= 1,
        s[0] == c,
    ensures
        spec_split(s, c) == seq![Seq::<char>::empty()] + spec_split(
            s.subrange(1, s.len() as int),
            c,
        ),
{
    assert(spec_find(s, c) == 0);
    assert(s.subrange(0, 0) =~= Seq::<char>::empty());
}

/// Splitting a joined group list followed by a separator and a rest: the
/// groups become tokens, the rest splits on its own.
pub(crate) proof fn lemma_split_join(gs: Seq<u16>, w: Seq<char>)
    requires
        gs.len() >= 1,
    ensures
        spec_split(spec_join_hex(gs) + seq![':'] + w, ':') == gs.map_values(
            |g: u16| spec_fmt_hex(g as nat),
        ) + spec_split(w, ':'),
    decreases gs.len(),
{
    if gs.len() == 1 {
        lemma_fmt_hex_props(gs[0] as nat);
        lemma_hex_not_char(spec_fmt_hex(gs[0] as nat), ':');
        lemma_split_sep(spec_fmt_hex(gs[0] as nat), w, ':');
        assert(gs.map_values(|g: u16| spec_fmt_hex(g as nat)) =~= seq![
            spec_fmt_hex(gs[0] as nat),
        ]);
        assert(seq![spec_fmt_hex(gs[0] as nat)] + spec_split(w, ':') =~= gs.map_values(
            |g: u16| spec_fmt_hex(g as nat),
        ) + spec_split(w, ':'));
    } else {
        let rest = gs.drop_first();
        lemma_split_join(rest, w);
        lemma_fmt_hex_props(gs[0] as nat);
        lemma_hex_not_char(spec_fmt_hex(gs[0] as nat), ':');
        let inner = spec_join_hex(rest) + seq![':'] + w;
        lemma_split_sep(spec_fmt_hex(gs[0] as nat), inner, ':');
        assert(spec_join_hex(gs) + seq![':'] + w =~= spec_fmt_hex(gs[0] as nat) + seq![':']
            + inner);
        assert(gs.map_values(|g: u16| spec_fmt_hex(g as nat)) =~= seq![
            spec_fmt_hex(gs[0] as nat),
        ] + rest.map_values(|g: u16| spec_fmt_hex(g as nat)));
        assert(seq![spec_fmt_hex(gs[0] as nat)] + (rest.map_values(
            |g: u16| spec_fmt_hex(g as nat),
        ) + spec_split(w, ':')) =~= gs.map_values(|g: u16| spec_fmt_hex(g as nat)) + spec_split(
            w,
            ':',
        ));
    }
}

/// Splitting a joined group list alone: the groups become the tokens.
pub(crate) proof fn lemma_split_join_alone(gs: Seq<u16>)
    requires
        gs.len() >= 1,
    ensures
        spec_split(spec_join_hex(gs), ':') == gs.map_values(|g: u16| spec_fmt_hex(g as nat)),
    decreases gs.len(),
{
    if gs.len() == 1 {
        lemma_fmt_hex_props(gs[0] as nat);
        lemma_hex_not_char(spec_fmt_hex(gs[0] as nat), ':');
        lemma_split_no_sep(spec_fmt_hex(gs[0] as nat), ':');
        assert(gs.map_values(|g: u16| spec_fmt_hex(g as nat)) =~= seq![
            spec_fmt_hex(gs[0] as nat),
        ]);
    } else {
        let rest = gs.drop_first();
        lemma_split_join_alone(rest);
        lemma_fmt_hex_props(gs[0] as nat);
        lemma_hex_not_char(spec_fmt_hex(gs[0] as nat), ':');
        lemma_split_sep(spec_fmt_hex(gs[0] as nat), spec_join_hex(rest), ':');
        assert(spec_join_hex(gs) =~= spec_fmt_hex(gs[0] as nat) + seq![':'] + spec_join_hex(rest));
        assert(seq![spec_fmt_hex(gs[0] as nat)] + rest.map_values(|g: u16| spec_fmt_hex(g as nat))
            =~= gs.map_values(|g: u16| spec_fmt_hex(g as nat)));
    }
}

/// When the tokens up to `k` are nonempty and the one at `k` is empty, the
/// first-empty scan stops at `k`.
pub(crate) proof fn lemma_first_empty_at(toks: Seq<Seq<char>>, k: int)
    requires
        0 <= k < toks.len(),
        forall|i: int| 0 <= i < k ==> (#[trigger] toks[i]).len() > 0,
        toks[k].len() == 0,
    ensures
        spec_first_empty(toks, 0) == k,
{
    lemma_first_empty_from_at(toks, 0, k);
}

proof fn lemma_first_empty_from_at(toks: Seq<Seq<char>>, i: int, k: int)
    requires
        0 <= i <= k < toks.len(),
        forall|j: int| i <= j < k ==> (#[trigger] toks[j]).len() > 0,
        toks[k].len() == 0,
    ensures
        spec_first_empty(toks, i) == k,
    decreases k - i,
{
    if i < k {
        lemma_first_empty_from_at(toks, i + 1, k);
    }
}

/// Round trip of an uncompressed colon-hex form.
#[verifier::rlimit(100)]
#[verifier::spinoff_prover]
proof fn lemma_v6_rt_plain(a: u128)
    requires
        spec_run_len(spec_segs(a), spec_best_run(spec_segs(a), 0)) < 2,
    ensures
        spec_parse_v6(spec_fmt_v6(a)) == Some(a),
{
    let segs = spec_segs(a);
    lemma_best_run_bounds(segs, 0);
    let b = spec_best_run(segs, 0);
    lemma_run_len_facts(segs, b);
    let rl = spec_run_len(segs, b);
    lemma_combine_segs_id(a);
    let m = segs.map_values(|g: u16| g as nat);
    let ftoks = segs.map_values(|g: u16| spec_fmt_hex(g as nat));
    assert forall|i: int| 0 <= i < 8 implies spec_valid_group(#[trigger] ftoks[i])
        && spec_hex_seq_val(ftoks[i]) == segs[i] as nat && ftoks[i].len() > 0 by {
        lemma_fmt_hex_props(segs[i] as nat);
        lemma_hex_roundtrip(segs[i] as nat);
    }
    let s = spec_fmt_v6(a);
    // no compression: eight plain groups
    lemma_split_join_alone(segs);
    let toks = spec_split(s, ':');
    assert(toks == ftoks);
    assert(toks.len() == 8);
    assert(spec_all_nonempty(toks, 0, 8));
    assert(spec_all_valid_groups(toks));
    assert(spec_group_vals(toks) =~= m);
    assert(spec_parse_v6(s) == Some((spec_combine(m) as u128)));
}

/// Round trip of a form compressed in the middle.
#[verifier::rlimit(100)]
#[verifier::spinoff_prover]
proof fn lemma_v6_rt_middle(a: u128)
    requires
        spec_run_len(spec_segs(a), spec_best_run(spec_segs(a), 0)) >= 2,
        spec_best_run(spec_segs(a), 0) > 0,
        spec_best_run(spec_segs(a), 0) + spec_run_len(spec_segs(a), spec_best_run(spec_segs(a), 0))
            < 8,
    ensures
        spec_parse_v6(spec_fmt_v6(a)) == Some(a),
{
    let segs = spec_segs(a);
    lemma_best_run_bounds(segs, 0);
    let b = spec_best_run(segs, 0);
    lemma_run_len_facts(segs, b);
    let rl = spec_run_len(segs, b);
    lemma_combine_segs_id(a);
    let m = segs.map_values(|g: u16| g as nat);
    let ftoks = segs.map_values(|g: u16| spec_fmt_hex(g as nat));
    assert forall|i: int| 0 <= i < 8 implies spec_valid_group(#[trigger] ftoks[i])
        && spec_hex_seq_val(ftoks[i]) == segs[i] as nat && ftoks[i].len() > 0 by {
        lemma_fmt_hex_props(segs[i] as nat);
        lemma_hex_roundtrip(segs[i] as nat);
    }
    let s = spec_fmt_v6(a);
    let h = b;
    let t = 8 - b - rl;
    let hseq = segs.take(b);
    let tseq = segs.skip(b + rl);
    let hmap = hseq.map_values(|g: u16| spec_fmt_hex(g as nat));
    let tmap = tseq.map_values(|g: u16| spec_fmt_hex(g as nat));
    assert forall|i: int| 0 <= i < hmap.len() implies #[trigger] hmap[i] == ftoks[i] by {
        assert(hseq[i] == segs[i]);
    }
    assert forall|i: int| 0 <= i < tmap.len() implies #[trigger] tmap[i] == ftoks[b + rl + i] by {
        assert(tseq[i] == segs[b + rl + i]);
    }
    assert(spec_join_hex(Seq::<u16>::empty()) =~= Seq::<char>::empty());
    assert(spec_split(Seq::<char>::empty(), ':') =~= seq![Seq::<char>::empty()]);
    let empty_tok = Seq::<char>::empty();
    // compression in the middle
    let inner = seq![':'] + spec_join_hex(tseq);
    assert(s =~= spec_join_hex(hseq) + seq![':'] + inner);
    lemma_split_join(hseq, inner);
    lemma_split_leading_sep(inner, ':');
    assert(inner.subrange(1, inner.len() as int) =~= spec_join_hex(tseq));
    lemma_split_join_alone(tseq);
    let toks = spec_split(s, ':');
    assert(toks =~= hmap + (seq![empty_tok] + tmap));
    let len = toks.len() as int;
    assert(len == h + 1 + t == 9 - rl);
    assert(len <= 7);
    assert(toks[0].len() > 0);
    assert(toks[len - 1].len() > 0);
    assert forall|i: int| 0 <= i < h implies (#[trigger] toks[i]).len() > 0 by {
        assert(toks[i] == hmap[i]);
    }
    assert(toks[h].len() == 0);
    lemma_first_empty_at(toks, h);
    assert forall|i: int| h + 1 <= i < len implies (#[trigger] toks[i]).len() > 0 by {
        assert(toks[i] == tmap[i - h - 1]);
    }
    assert(spec_all_nonempty(toks, h + 1, len));
    let head = toks.take(h);
    let tail = toks.skip(h + 1);
    assert(head =~= hmap);
    assert(tail =~= tmap);
    assert(spec_all_valid_groups(head));
    assert(spec_all_valid_groups(tail));
    assert(head.len() + tail.len() <= 7);
    let full = spec_group_vals(head) + Seq::new(
        (8 - head.len() - tail.len()) as nat,
        |i: int| 0nat,
    ) + spec_group_vals(tail);
    assert(full =~= m) by {
        assert forall|i: int| 0 <= i < 8 implies full[i] == m[i] by {
            if i < h {
                assert(full[i] == spec_hex_seq_val(hmap[i]));
            } else if i < h + rl {
                assert(full[i] == 0);
                assert(segs[i] == 0);
            } else {
                assert(full[i] == spec_hex_seq_val(tmap[i - h - rl]));
            }
        }
    }
    assert(spec_parse_v6(s) == Some((spec_compressed_val(head, tail) as u128)));
}

/// Round trip of a form compressed at the start.
#[verifier::rlimit(100)]
#[verifier::spinoff_prover]
proof fn lemma_v6_rt_lead(a: u128)
    requires
        spec_run_len(spec_segs(a), spec_best_run(spec_segs(a), 0)) >= 2,
        spec_best_run(spec_segs(a), 0) == 0,
        spec_run_len(spec_segs(a), spec_best_run(spec_segs(a), 0)) < 8,
    ensures
        spec_parse_v6(spec_fmt_v6(a)) == Some(a),
{
    let segs = spec_segs(a);
    lemma_best_run_bounds(segs, 0);
    let b = spec_best_run(segs, 0);
    lemma_run_len_facts(segs, b);
    let rl = spec_run_len(segs, b);
    lemma_combine_segs_id(a);
    let m = segs.map_values(|g: u16| g as nat);
    let ftoks = segs.map_values(|g: u16| spec_fmt_hex(g as nat));
    assert forall|i: int| 0 <= i < 8 implies spec_valid_group(#[trigger] ftoks[i])
        && spec_hex_seq_val(ftoks[i]) == segs[i] as nat && ftoks[i].len() > 0 by {
        lemma_fmt_hex_props(segs[i] as nat);
        lemma_hex_roundtrip(segs[i] as nat);
    }
    let s = spec_fmt_v6(a);
    let h = b;
    let t = 8 - b - rl;
    let hseq = segs.take(b);
    let tseq = segs.skip(b + rl);
    let hmap = hseq.map_values(|g: u16| spec_fmt_hex(g as nat));
    let tmap = tseq.map_values(|g: u16| spec_fmt_hex(g as nat));
    assert forall|i: int| 0 <= i < hmap.len() implies #[trigger] hmap[i] == ftoks[i] by {
        assert(hseq[i] == segs[i]);
    }
    assert forall|i: int| 0 <= i < tmap.len() implies #[trigger] tmap[i] == ftoks[b + rl + i] by {
        assert(tseq[i] == segs[b + rl + i]);
    }
    assert(spec_join_hex(Seq::<u16>::empty()) =~= Seq::<char>::empty());
    assert(spec_split(Seq::<char>::empty(), ':') =~= seq![Seq::<char>::empty()]);
    let empty_tok = Seq::<char>::empty();
    // compression at the start
    assert(s =~= seq![':'] + (seq![':'] + spec_join_hex(tseq)));
    lemma_split_leading_sep(s, ':');
    let rest1 = s.subrange(1, s.len() as int);
    assert(rest1 =~= seq![':'] + spec_join_hex(tseq));
    lemma_split_leading_sep(rest1, ':');
    assert(rest1.subrange(1, rest1.len() as int) =~= spec_join_hex(tseq));
    lemma_split_join_alone(tseq);
    let toks = spec_split(s, ':');
    assert(toks =~= seq![empty_tok] + (seq![empty_tok] + tmap));
    let len = toks.len() as int;
    assert(len == 2 + t);
    assert(toks[0].len() == 0 && toks[1].len() == 0);
    assert forall|i: int| 2 <= i < len implies (#[trigger] toks[i]).len() > 0 by {
        assert(toks[i] == tmap[i - 2]);
    }
    assert(spec_all_nonempty(toks, 2, len));
    assert(len == 8 ==> !spec_all_nonempty(toks, 0, 8));
    assert(toks[2].len() > 0);
    let tail = toks.skip(2);
    assert(tail =~= tmap);
    assert(spec_all_valid_groups(tail));
    assert(tail.len() <= 7);
    let full = spec_group_vals(Seq::<Seq<char>>::empty()) + Seq::new(
        (8 - tail.len()) as nat,
        |i: int| 0nat,
    ) + spec_group_vals(tail);
    assert(spec_group_vals(Seq::<Seq<char>>::empty()) =~= Seq::<nat>::empty());
    assert(full =~= m) by {
        assert forall|i: int| 0 <= i < 8 implies full[i] == m[i] by {
            if i < rl {
                assert(full[i] == 0);
                assert(segs[i] == 0);
            } else {
                assert(full[i] == spec_hex_seq_val(tmap[i - rl]));
            }
        }
    }
    assert(spec_parse_v6(s) == Some(
        (spec_compressed_val(Seq::<Seq<char>>::empty(), tail) as u128),
    ));
}

/// Round trip of a form compressed at the end.
#[verifier::rlimit(100)]
#[verifier::spinoff_prover]
proof fn lemma_v6_rt_trail(a: u128)
    requires
        spec_run_len(spec_segs(a), spec_best_run(spec_segs(a), 0)) >= 2,
        spec_best_run(spec_segs(a), 0) > 0,
        spec_best_run(spec_segs(a), 0) + spec_run_len(spec_segs(a), spec_best_run(spec_segs(a), 0))
            == 8,
    ensures
        spec_parse_v6(spec_fmt_v6(a)) == Some(a),
{
    let segs = spec_segs(a);
    lemma_best_run_bounds(segs, 0);
    let b = spec_best_run(segs, 0);
    lemma_run_len_facts(segs, b);
    let rl = spec_run_len(segs, b);
    lemma_combine_segs_id(a);
    let m = segs.map_values(|g: u16| g as nat);
    let ftoks = segs.map_values(|g: u16| spec_fmt_hex(g as nat));
    assert forall|i: int| 0 <= i < 8 implies spec_valid_group(#[trigger] ftoks[i])
        && spec_hex_seq_val(ftoks[i]) == segs[i] as nat && ftoks[i].len() > 0 by {
        lemma_fmt_hex_props(segs[i] as nat);
        lemma_hex_roundtrip(segs[i] as nat);
    }
    let s = spec_fmt_v6(a);
    let h = b;
    let t = 8 - b - rl;
    let hseq = segs.take(b);
    let tseq = segs.skip(b + rl);
    let hmap = hseq.map_values(|g: u16| spec_fmt_hex(g as nat));
    let tmap = tseq.map_values(|g: u16| spec_fmt_hex(g as nat));
    assert forall|i: int| 0 <= i < hmap.len() implies #[trigger] hmap[i] == ftoks[i] by {
        assert(hseq[i] == segs[i]);
    }
    assert forall|i: int| 0 <= i < tmap.len() implies #[trigger] tmap[i] == ftoks[b + rl + i] by {
        assert(tseq[i] == segs[b + rl + i]);
    }
    assert(spec_join_hex(Seq::<u16>::empty()) =~= Seq::<char>::empty());
    assert(spec_split(Seq::<char>::empty(), ':') =~= seq![Seq::<char>::empty()]);
    let empty_tok = Seq::<char>::empty();
    // compression at the end
    assert(s =~= spec_join_hex(hseq) + seq![':'] + seq![':']);
    lemma_split_join(hseq, seq![':']);
    lemma_split_leading_sep(seq![':'], ':');
    assert(seq![':'].subrange(1, 1) =~= Seq::<char>::empty());
    let toks = spec_split(s, ':');
    assert(spec_split(seq![':'], ':') =~= seq![empty_tok, empty_tok]);
    assert(toks =~= hmap + seq![empty_tok, empty_tok]);
    let len = toks.len() as int;
    assert(len == h + 2);
    assert(h <= 6);
    assert(toks[len - 1].len() == 0 && toks[len - 2].len() == 0);
    assert forall|i: int| 0 <= i < len - 2 implies (#[trigger] toks[i]).len() > 0 by {
        assert(toks[i] == hmap[i]);
    }
    assert(spec_all_nonempty(toks, 0, len - 2));
    assert(toks[0].len() > 0);
    assert(len == 8 ==> !spec_all_nonempty(toks, 0, 8));
    let head = toks.take(len - 2);
    assert(head =~= hmap);
    assert(spec_all_valid_groups(head));
    assert(head.len() <= 7);
    let full = spec_group_vals(head) + Seq::new((8 - head.len()) as nat, |i: int| 0nat)
        + spec_group_vals(Seq::<Seq<char>>::empty());
    assert(spec_group_vals(Seq::<Seq<char>>::empty()) =~= Seq::<nat>::empty());
    assert(full =~= m) by {
        assert forall|i: int| 0 <= i < 8 implies full[i] == m[i] by {
            if i < h {
                assert(full[i] == spec_hex_seq_val(hmap[i]));
            } else {
                assert(full[i] == 0);
                assert(segs[i] == 0);
            }
        }
    }
    assert(spec_parse_v6(s) == Some(
        (spec_compressed_val(head, Seq::<Seq<char>>::empty()) as u128),
    ));
}

/// Round trip of the all-zero address.
#[verifier::rlimit(100)]
#[verifier::spinoff_prover]
proof fn lemma_v6_rt_zero(a: u128)
    requires
        spec_best_run(spec_segs(a), 0) == 0,
        spec_run_len(spec_segs(a), spec_best_run(spec_segs(a), 0)) == 8,
    ensures
        spec_parse_v6(spec_fmt_v6(a)) == Some(a),
{
    let segs = spec_segs(a);
    lemma_best_run_bounds(segs, 0);
    let b = spec_best_run(segs, 0);
    lemma_run_len_facts(segs, b);
    let rl = spec_run_len(segs, b);
    lemma_combine_segs_id(a);
    let m = segs.map_values(|g: u16| g as nat);
    let ftoks = segs.map_values(|g: u16| spec_fmt_hex(g as nat));
    assert forall|i: int| 0 <= i < 8 implies spec_valid_group(#[trigger] ftoks[i])
        && spec_hex_seq_val(ftoks[i]) == segs[i] as nat && ftoks[i].len() > 0 by {
        lemma_fmt_hex_props(segs[i] as nat);
        lemma_hex_roundtrip(segs[i] as nat);
    }
    let s = spec_fmt_v6(a);
    let h = b;
    let t = 8 - b - rl;
    let hseq = segs.take(b);
    let tseq = segs.skip(b + rl);
    let hmap = hseq.map_values(|g: u16| spec_fmt_hex(g as nat));
    let tmap = tseq.map_values(|g: u16| spec_fmt_hex(g as nat));
    assert forall|i: int| 0 <= i < hmap.len() implies #[trigger] hmap[i] == ftoks[i] by {
        assert(hseq[i] == segs[i]);
    }
    assert forall|i: int| 0 <= i < tmap.len() implies #[trigger] tmap[i] == ftoks[b + rl + i] by {
        assert(tseq[i] == segs[b + rl + i]);
    }
    assert(spec_join_hex(Seq::<u16>::empty()) =~= Seq::<char>::empty());
    assert(spec_split(Seq::<char>::empty(), ':') =~= seq![Seq::<char>::empty()]);
    let empty_tok = Seq::<char>::empty();
    // the whole address is zero
    assert(h == 0 && t == 0 && rl == 8);
    assert(s =~= seq![':'] + seq![':']);
    lemma_split_leading_sep(s, ':');
    assert(s.subrange(1, 2) =~= seq![':']);
    lemma_split_leading_sep(seq![':'], ':');
    assert(seq![':'].subrange(1, 1) =~= Seq::<char>::empty());
    let toks = spec_split(s, ':');
    assert(toks =~= seq![empty_tok, empty_tok, empty_tok]);
    assert(toks.len() == 3 && toks[0].len() == 0 && toks[1].len() == 0 && toks[2].len()
        == 0);
    assert(spec_parse_v6(s) == Some(0u128));
    assert forall|i: int| 0 <= i < 8 implies segs[i] == 0 by {}
    lemma_v6_segs(a);
    assert(segs[0] == 0 && segs[1] == 0 && segs[2] == 0 && segs[3] == 0 && segs[4] == 0 && segs[5]
        == 0 && segs[6] == 0 && segs[7] == 0);
    assert((a >> 112u32) & 0xffff == 0 && (a >> 96u32) & 0xffff == 0 && (a >> 80u32) & 0xffff == 0
        && (a >> 64u32) & 0xffff == 0 && (a >> 48u32) & 0xffff == 0 && (a >> 32u32) & 0xffff == 0
        && (a >> 16u32) & 0xffff == 0 && a & 0xffff == 0);
    assert(a == 0);
}

/// Round trip: parsing the canonical colon-hex form of an address gives
/// the address back.
pub(crate) proof fn lemma_v6_roundtrip(a: u128)
    ensures
        spec_parse_v6(spec_fmt_v6(a)) == Some(a),
{
    let segs = spec_segs(a);
    lemma_best_run_bounds(segs, 0);
    let b = spec_best_run(segs, 0);
    lemma_run_len_facts(segs, b);
    let rl = spec_run_len(segs, b);
    if rl < 2 {
        lemma_v6_rt_plain(a);
    } else if b > 0 && b + rl < 8 {
        lemma_v6_rt_middle(a);
    } else if b == 0 && rl < 8 {
        lemma_v6_rt_lead(a);
    } else if b > 0 && b + rl == 8 {
        lemma_v6_rt_trail(a);
    } else {
        lemma_v6_rt_zero(a);
    }
}

/// No character of a joined group list is anything but a hex digit or a
/// colon.
proof fn lemma_join_chars(gs: Seq<u16>, c: char)
    requires
        !spec_is_hex_digit(c),
        c != ':',
    ensures
        forall|j: int| 0 <= j < spec_join_hex(gs).len() ==> spec_join_hex(gs)[j] != c,
    decreases gs.len(),
{
    if gs.len() == 1 {
        lemma_fmt_hex_props(gs[0] as nat);
        lemma_hex_not_char(spec_fmt_hex(gs[0] as nat), c);
    } else if gs.len() > 1 {
        lemma_join_chars(gs.drop_first(), c);
        lemma_fmt_hex_props(gs[0] as nat);
        lemma_hex_not_char(spec_fmt_hex(gs[0] as nat), c);
        let u = spec_fmt_hex(gs[0] as nat);
        let rest = spec_join_hex(gs.drop_first());
        assert(spec_join_hex(gs) =~= u + seq![':'] + rest);
        assert forall|j: int| 0 <= j < spec_join_hex(gs).len() implies spec_join_hex(gs)[j]
            != c by {
            if j < u.len() {
                assert(spec_join_hex(gs)[j] == u[j]);
            } else if j == u.len() {
                assert(spec_join_hex(gs)[j] == ':');
            } else {
                assert(spec_join_hex(gs)[j] == rest[j - u.len() - 1]);
            }
        }
    }
}

/// The colon-hex text holds no slash.
proof fn lemma_v6_text_no_slash(a: u128)
    ensures
        forall|j: int| 0 <= j < spec_fmt_v6(a).len() ==> spec_fmt_v6(a)[j] != '/',
{
    let segs = spec_segs(a);
    let b = spec_best_run(segs, 0);
    lemma_best_run_bounds(segs, 0);
    let rl = spec_run_len(segs, b);
    lemma_run_len_facts(segs, b);
    lemma_join_chars(segs, '/');
    lemma_join_chars(segs.take(b), '/');
    lemma_join_chars(segs.skip(b + rl), '/');
    let s = spec_fmt_v6(a);
    if rl >= 2 {
        let u = spec_join_hex(segs.take(b));
        let w = spec_join_hex(segs.skip(b + rl));
        assert(s =~= u + seq![':', ':'] + w);
        assert forall|j: int| 0 <= j < s.len() implies s[j] != '/' by {
            if j < u.len() {
                assert(s[j] == u[j]);
            } else if j < u.len() + 2 {
                assert(s[j] == ':');
            } else {
                assert(s[j] == w[j - u.len() - 2]);
            }
        }
    } else {
        assert(s == spec_join_hex(segs));
    }
}

/// Round trip (IPv6): parsing the canonical text of any valid network
/// yields exactly the network's address and netmask.
pub proof fn lemma_roundtrip_v6(a: u128, p: u8)
    requires
        p <= 128,
        a & crate::helpers::spec_bite_mask_u128(p) == a,
    ensures
        spec_from_str_v6(spec_fmt_net_v6(a, p)) == Ok::<(u128, u8), crate::IpNetworkParseError>(
            (a, p),
        ),
{
    let u = spec_fmt_v6(a);
    let w = spec_fmt_dec(p as nat);
    lemma_fmt_dec_props(p as nat);
    lemma_dec_roundtrip(p as nat);
    lemma_v6_text_no_slash(a);
    lemma_digits_not_sep(w, '/');
    let segs = spec_segs(a);
    lemma_best_run_bounds(segs, 0);
    lemma_run_len_facts(segs, spec_best_run(segs, 0));
    assert(u.len() >= 1) by {
        let b = spec_best_run(segs, 0);
        let rl = spec_run_len(segs, b);
        if rl >= 2 {
            assert(u =~= spec_join_hex(segs.take(b)) + seq![':', ':'] + spec_join_hex(
                segs.skip(b + rl),
            ));
            assert(u.len() >= 2);
        } else {
            assert(u == spec_join_hex(segs));
            lemma_fmt_hex_props(segs[0] as nat);
        }
    }
    assert(spec_fmt_net_v6(a, p) =~= u + seq!['/'] + w);
    lemma_split_net_text(u, w);
    lemma_v6_roundtrip(a);
}

/// A colon-hex text is never a dotted quad: splitting it on dots leaves
/// it whole.
proof fn lemma_v6_text_not_v4(a: u128)
    ensures
        spec_parse_v4(spec_fmt_v6(a)) is None,
{
    let s = spec_fmt_v6(a);
    let segs = spec_segs(a);
    let b = spec_best_run(segs, 0);
    lemma_best_run_bounds(segs, 0);
    let rl = spec_run_len(segs, b);
    lemma_run_len_facts(segs, b);
    lemma_join_chars(segs, '.');
    lemma_join_chars(segs.take(b), '.');
    lemma_join_chars(segs.skip(b + rl), '.');
    assert(forall|j: int| 0 <= j < s.len() ==> s[j] != '.') by {
        if rl >= 2 {
            let u = spec_join_hex(segs.take(b));
            let w = spec_join_hex(segs.skip(b + rl));
            assert(s =~= u + seq![':', ':'] + w);
            assert forall|j: int| 0 <= j < s.len() implies s[j] != '.' by {
                if j < u.len() {
                    assert(s[j] == u[j]);
                } else if j < u.len() + 2 {
                    assert(s[j] == ':');
                } else {
                    assert(s[j] == w[j - u.len() - 2]);
                }
            }
        } else {
            assert(s == spec_join_hex(segs));
        }
    }
    lemma_split_no_sep(s, '.');
    assert(spec_split(s, '.').len() == 1);
}

/// Round trip of the version-agnostic parse: parsing the canonical text of
/// a valid network of either family yields that family's address and the
/// netmask.
pub proof fn lemma_roundtrip_ip_v4(a: u32, p: u8)
    requires
        p <= 32,
        a & crate::helpers::spec_bite_mask(p) == a,
    ensures
        spec_from_str_ip(spec_fmt_net_v4(a, p)) == Ok::<
            (crate::IpAddr, u8),
            crate::IpNetworkParseError,
        >((crate::IpAddr::V4(a), p)),
{
    let u = spec_fmt_v4(a);
    let w = spec_fmt_dec(p as nat);
    lemma_fmt_dec_props(p as nat);
    lemma_dec_roundtrip(p as nat);
    lemma_v4_text_no_slash(a);
    lemma_digits_not_sep(w, '/');
    lemma_fmt_dec_props(spec_octet(a, 0));
    assert(u.len() >= 1);
    assert(spec_fmt_net_v4(a, p) =~= u + seq!['/'] + w);
    lemma_split_net_text(u, w);
    lemma_v4_roundtrip(a);
}

/// Round trip of the version-agnostic parse for an IPv6 network: the text
/// does not read as IPv4, so the IPv6 grammar decides.
pub proof fn lemma_roundtrip_ip_v6(a: u128, p: u8)
    requires
        p <= 128,
        a & crate::helpers::spec_bite_mask_u128(p) == a,
    ensures
        spec_from_str_ip(spec_fmt_net_v6(a, p)) == Ok::<
            (crate::IpAddr, u8),
            crate::IpNetworkParseError,
        >((crate::IpAddr::V6(a), p)),
{
    let u = spec_fmt_v6(a);
    let w = spec_fmt_dec(p as nat);
    lemma_fmt_dec_props(p as nat);
    lemma_dec_roundtrip(p as nat);
    lemma_v6_text_no_slash(a);
    lemma_digits_not_sep(w, '/');
    let segs = spec_segs(a);
    lemma_best_run_bounds(segs, 0);
    lemma_run_len_facts(segs, spec_best_run(segs, 0));
    assert(u.len() >= 1) by {
        let b = spec_best_run(segs, 0);
        let rl = spec_run_len(segs, b);
        if rl >= 2 {
            assert(u =~= spec_join_hex(segs.take(b)) + seq![':', ':'] + spec_join_hex(
                segs.skip(b + rl),
            ));
            assert(u.len() >= 2);
        } else {
            assert(u == spec_join_hex(segs));
            lemma_fmt_hex_props(segs[0] as nat);
        }
    }
    assert(spec_fmt_net_v6(a, p) =~= u + seq!['/'] + w);
    lemma_split_net_text(u, w);
    lemma_v6_text_not_v4(a);
    lemma_v6_roundtrip(a);
}

impl core::str::FromStr for crate::Ipv4Network {
    type Err = crate::IpNetworkParseError;

    fn from_str(s: &str) -> Result<Self, Self::Err> {
        crate::Ipv4Network::from_str(s)
    }
}

impl core::str::FromStr for crate::Ipv6Network {
    type Err = crate::IpNetworkParseError;

    fn from_str(s: &str) -> Result<Self, Self::Err> {
        crate::Ipv6Network::from_str(s)
    }
}

impl core::str::FromStr for crate::IpNetwork {
    type Err = crate::IpNetworkParseError;

    fn from_str(s: &str) -> Result<Self, Self::Err> {
        crate::IpNetwork::from_str(s)
    }
}

impl crate::Ipv4Network {
    /// Converts the network to a string in CIDR notation, X.X.X.X/Y.
    pub fn to_string(&self) -> (r: String)
        ensures
            r@ == spec_fmt_net_v4(self.spec_network_address(), self.spec_netmask()),
    {
        let mut s = String::new();
        append_v4(&mut s, self.network_address());
        proof {
            reveal_strlit("/");
        }
        s.append("/");
        append_dec_u8(&mut s, self.netmask());
        proof {
            assert(s@ =~= spec_fmt_net_v4(self.spec_network_address(), self.spec_netmask()));
        }
        s
    }
}

impl crate::Ipv6Network {
    /// Converts the network to a string in CIDR notation, X:X::X/Y.
    pub fn to_string(&self) -> (r: String)
        ensures
            r@ == spec_fmt_net_v6(self.spec_network_address(), self.spec_netmask()),
    {
        let mut s = String::new();
        append_v6(&mut s, self.network_address());
        proof {
            reveal_strlit("/");
        }
        s.append("/");
        append_dec_u8(&mut s, self.netmask());
        proof {
            assert(s@ =~= spec_fmt_net_v6(self.spec_network_address(), self.spec_netmask()));
        }
        s
    }
}

impl crate::IpNetwork {
    /// Converts the network to a string in CIDR notation, in its own
    /// family's address syntax.
    pub fn to_string(&self) -> (r: String)
        ensures
            r@ == match *self {
                crate::IpNetwork::V4(network) => spec_fmt_net_v4(
                    network.spec_network_address(),
                    network.spec_netmask(),
                ),
                crate::IpNetwork::V6(network) => spec_fmt_net_v6(
                    network.spec_network_address(),
                    network.spec_netmask(),
                ),
            },
    {
        match self {
            crate::IpNetwork::V4(network) => network.to_string(),
            crate::IpNetwork::V6(network) => network.to_string(),
        }
    }
}

} // verus!
