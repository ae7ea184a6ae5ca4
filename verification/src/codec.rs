//! The on-disk form of the persistence document.
//!
//! The document is a JSON object with a fixed shape: a session identifier,
//! a creation timestamp, and the ordered list of sequence-indexed records.
//! The emitter produces one canonical text for a document; the parser reads
//! that text back, and the round-trip law proves that parsing an emitted
//! document yields exactly the document that was written.

use vstd::prelude::*;
use vstd::std_specs::iter::IteratorSpec;
use vstd::string::StrSliceExecFns;
use vstd::string::StringExecFns;

use crate::log::{
    DocView, KindView, LogData, LogKind, MessageView, OutputView, PanicView, StructuredLogMessage,
    StructuredLogOutput, StructuredPanicInfo, Timestamp,
};
use crate::unique::UniqueId;

verus! {

// ---------------------------------------------------------------------------
// Characters: decimal digits, hexadecimal digits.
// ---------------------------------------------------------------------------
/// The decimal digit character for a value below ten.
pub open spec fn digit_char(d: int) -> char {
    if d == 0 {
        '0'
    } else if d == 1 {
        '1'
    } else if d == 2 {
        '2'
    } else if d == 3 {
        '3'
    } else if d == 4 {
        '4'
    } else if d == 5 {
        '5'
    } else if d == 6 {
        '6'
    } else if d == 7 {
        '7'
    } else if d == 8 {
        '8'
    } else {
        '9'
    }
}

/// The value of a decimal digit character, or -1 for any other character.
pub open spec fn digit_val(c: char) -> int {
    if c == '0' {
        0
    } else if c == '1' {
        1
    } else if c == '2' {
        2
    } else if c == '3' {
        3
    } else if c == '4' {
        4
    } else if c == '5' {
        5
    } else if c == '6' {
        6
    } else if c == '7' {
        7
    } else if c == '8' {
        8
    } else if c == '9' {
        9
    } else {
        -1
    }
}

/// Whether a character is a decimal digit.
pub open spec fn is_digit_char(c: char) -> bool {
    digit_val(c) >= 0
}

/// Reading back the digit character of a value below ten gives that value.
proof fn lemma_digit_char_val(d: int)
    requires
        0 <= d < 10,
    ensures
        digit_val(digit_char(d)) == d,
        is_digit_char(digit_char(d)),
{
}

/// The lower-case hexadecimal digit character for a value below sixteen.
pub open spec fn hex_char(d: int) -> char {
    if d < 10 {
        digit_char(d)
    } else if d == 10 {
        'a'
    } else if d == 11 {
        'b'
    } else if d == 12 {
        'c'
    } else if d == 13 {
        'd'
    } else if d == 14 {
        'e'
    } else {
        'f'
    }
}

/// The value of a hexadecimal digit character, or -1 for any other one.
pub open spec fn hex_val(c: char) -> int {
    if is_digit_char(c) {
        digit_val(c)
    } else if c == 'a' {
        10
    } else if c == 'b' {
        11
    } else if c == 'c' {
        12
    } else if c == 'd' {
        13
    } else if c == 'e' {
        14
    } else if c == 'f' {
        15
    } else {
        -1
    }
}

/// Reading back the hexadecimal digit character of a value below sixteen
/// gives that value.
proof fn lemma_hex_char_val(d: int)
    requires
        0 <= d < 16,
    ensures
        hex_val(hex_char(d)) == d,
{
}

// ---------------------------------------------------------------------------
// Decimal numbers.
// ---------------------------------------------------------------------------
/// The decimal digits of a number, most significant first, no leading zeros.
pub open spec fn spec_digits(n: nat) -> Seq<char>
    decreases n,
{
    if n < 10 {
        seq![digit_char(n as int)]
    } else {
        spec_digits(n / 10).push(digit_char((n % 10) as int))
    }
}

/// The number denoted by a sequence of decimal digit characters.
pub open spec fn nat_of_digits(ds: Seq<char>) -> nat
    decreases ds.len(),
{
    if ds.len() == 0 {
        0
    } else {
        nat_of_digits(ds.drop_last()) * 10 + (if digit_val(ds.last()) >= 0 {
            digit_val(ds.last())
        } else {
            0
        }) as nat
    }
}

/// Emitted digits are nonempty and consist of digit characters only.
proof fn lemma_digits_are_digits(n: nat)
    ensures
        spec_digits(n).len() >= 1,
        forall|k: int|
            0 <= k < spec_digits(n).len() ==> is_digit_char(#[trigger] spec_digits(n)[k]),
    decreases n,
{
    if n < 10 {
        lemma_digit_char_val(n as int);
    } else {
        lemma_digits_are_digits(n / 10);
        lemma_digit_char_val((n % 10) as int);
        assert forall|k: int| 0 <= k < spec_digits(n).len() implies is_digit_char(
            #[trigger] spec_digits(n)[k],
        ) by {
            if k < spec_digits(n / 10).len() {
                assert(spec_digits(n)[k] == spec_digits(n / 10)[k]);
            } else {
                assert(spec_digits(n)[k] == digit_char((n % 10) as int));
            }
        }
    }
}

/// Reading back the emitted digits of a number gives that number.
proof fn lemma_nat_of_spec_digits(n: nat)
    ensures
        nat_of_digits(spec_digits(n)) == n,
    decreases n,
{
    if n < 10 {
        lemma_digit_char_val(n as int);
        let ds = spec_digits(n);
        assert(ds.drop_last() =~= Seq::<char>::empty());
        assert(nat_of_digits(ds.drop_last()) == 0);
    } else {
        lemma_nat_of_spec_digits(n / 10);
        lemma_digit_char_val((n % 10) as int);
        let ds = spec_digits(n);
        assert(ds.drop_last() =~= spec_digits(n / 10));
        assert(ds.last() == digit_char((n % 10) as int));
    }
}

/// The end of the run of digit characters starting at `i`.
pub open spec fn digit_run_end(s: Seq<char>, i: int) -> int
    decreases s.len() - i,
    when 0 <= i <= s.len()
{
    if i < s.len() && is_digit_char(s[i]) {
        digit_run_end(s, i + 1)
    } else {
        i
    }
}

/// The digit run ends exactly where the digits placed at `i` end, provided
/// the following character (if any) is not a digit.
proof fn lemma_digit_run_of_block(s: Seq<char>, i: int, j: int)
    requires
        0 <= i <= j <= s.len(),
        forall|k: int| i <= k < j ==> is_digit_char(#[trigger] s[k]),
        j == s.len() || !is_digit_char(s[j]),
    ensures
        digit_run_end(s, i) == j,
    decreases j - i,
{
    if i < j {
        lemma_digit_run_of_block(s, i + 1, j);
    }
}

/// A number read at a position: the digit run there, or `None` if the
/// position does not start with a digit.
pub open spec fn spec_parse_nat(s: Seq<char>, i: int) -> Option<(nat, int)> {
    if 0 <= i <= s.len() {
        let end = digit_run_end(s, i);
        if end > i {
            Some((nat_of_digits(s.subrange(i, end)), end))
        } else {
            None
        }
    } else {
        None
    }
}

/// Parsing at the position where a number was emitted yields that number,
/// provided the text continues with a non-digit.
proof fn lemma_parse_nat_emit(s: Seq<char>, i: int, n: nat)
    requires
        0 <= i,
        i + spec_digits(n).len() <= s.len(),
        s.subrange(i, i + spec_digits(n).len() as int) == spec_digits(n),
        i + spec_digits(n).len() == s.len() || !is_digit_char(s[i + spec_digits(n).len()]),
    ensures
        spec_parse_nat(s, i) == Some((n, i + spec_digits(n).len() as int)),
{
    let ds = spec_digits(n);
    let j = i + ds.len() as int;
    lemma_digits_are_digits(n);
    assert forall|k: int| i <= k < j implies is_digit_char(#[trigger] s[k]) by {
        assert(s[k] == ds[k - i]);
    }
    lemma_digit_run_of_block(s, i, j);
    lemma_nat_of_spec_digits(n);
}

// ---------------------------------------------------------------------------
// Strings with JSON escaping.
// ---------------------------------------------------------------------------
/// The emitted form of one character inside a quoted string: the common
/// escapes by name, other control characters as a four-digit escape, and
/// everything else as itself.
pub open spec fn escape_char(c: char) -> Seq<char> {
    if c == '"' {
        seq!['\\', '"']
    } else if c == '\\' {
        seq!['\\', '\\']
    } else if c == '\n' {
        seq!['\\', 'n']
    } else if c == '\r' {
        seq!['\\', 'r']
    } else if c == '\t' {
        seq!['\\', 't']
    } else if (c as u32) < 32 {
        seq!['\\', 'u', '0', '0', hex_char(c as u32 as int / 16), hex_char(c as u32 as int % 16)]
    } else {
        seq![c]
    }
}

/// The emitted body of a quoted string: each character escaped in turn.
pub open spec fn spec_emit_string_body(t: Seq<char>) -> Seq<char>
    decreases t.len(),
{
    if t.len() == 0 {
        Seq::empty()
    } else {
        escape_char(t[0]) + spec_emit_string_body(t.drop_first())
    }
}

/// The emitted form of a string: the escaped body between quotes.
pub open spec fn spec_emit_string(t: Seq<char>) -> Seq<char> {
    seq!['"'] + spec_emit_string_body(t) + seq!['"']
}

/// One escape read at position `i`, where `s[i]` is the backslash.
pub open spec fn spec_parse_escape(s: Seq<char>, i: int) -> Option<(char, int)> {
    if 0 <= i && i + 1 < s.len() {
        let c = s[i + 1];
        if c == '"' {
            Some(('"', i + 2))
        } else if c == '\\' {
            Some(('\\', i + 2))
        } else if c == 'n' {
            Some(('\n', i + 2))
        } else if c == 'r' {
            Some(('\r', i + 2))
        } else if c == 't' {
            Some(('\t', i + 2))
        } else if c == 'u' {
            if i + 5 < s.len() && s[i + 2] == '0' && s[i + 3] == '0' && hex_val(s[i + 4]) >= 0
                && hex_val(s[i + 5]) >= 0 {
                Some((((16 * hex_val(s[i + 4]) + hex_val(s[i + 5])) as char), i + 6))
            } else {
                None
            }
        } else {
            None
        }
    } else {
        None
    }
}

/// The body of a quoted string read at position `i`, up to and including
/// the closing quote.
pub open spec fn spec_parse_string_body(s: Seq<char>, i: int) -> Option<(Seq<char>, int)>
    decreases s.len() - i,
    when 0 <= i <= s.len()
{
    if i >= s.len() {
        None
    } else if s[i] == '"' {
        Some((Seq::empty(), i + 1))
    } else if s[i] == '\\' {
        match spec_parse_escape(s, i) {
            Some((c, j)) => if i < j <= s.len() {
                match spec_parse_string_body(s, j) {
                    Some((t, k)) => Some((seq![c] + t, k)),
                    None => None,
                }
            } else {
                None
            },
            None => None,
        }
    } else {
        match spec_parse_string_body(s, i + 1) {
            Some((t, k)) => Some((seq![s[i]] + t, k)),
            None => None,
        }
    }
}

/// A quoted string read at position `i`.
pub open spec fn spec_parse_string(s: Seq<char>, i: int) -> Option<(Seq<char>, int)> {
    if 0 <= i < s.len() && s[i] == '"' {
        spec_parse_string_body(s, i + 1)
    } else {
        None
    }
}

/// The escape of a character is nonempty; a one-character escape is the
/// character itself and is neither a quote nor a backslash; a longer escape
/// starts with a backslash.
proof fn lemma_escape_shape(c: char)
    ensures
        escape_char(c).len() == 1 || escape_char(c).len() == 2 || escape_char(c).len() == 6,
        escape_char(c).len() == 1 ==> escape_char(c)[0] == c && c != '"' && c != '\\',
        escape_char(c).len() >= 2 ==> escape_char(c)[0] == '\\',
{
}

/// Reading back a multi-character escape gives the escaped character.
proof fn lemma_parse_escape_emit(s: Seq<char>, i: int, c: char)
    requires
        escape_char(c).len() >= 2,
        0 <= i,
        i + escape_char(c).len() < s.len(),
        s.subrange(i, i + escape_char(c).len() as int) == escape_char(c),
    ensures
        spec_parse_escape(s, i) == Some((c, i + escape_char(c).len() as int)),
{
    let e = escape_char(c);
    assert forall|k: int| 0 <= k < e.len() implies s[i + k] == e[k] by {
        assert(s.subrange(i, i + e.len() as int)[k] == s[i + k]);
    }
    if c == '"' || c == '\\' || c == '\n' || c == '\r' || c == '\t' {
    } else {
        assert((c as u32) < 32);
        let hi = c as u32 as int / 16;
        let lo = c as u32 as int % 16;
        lemma_hex_char_val(hi);
        lemma_hex_char_val(lo);
        assert(s[i + 1] == 'u');
        assert(s[i + 2] == '0');
        assert(s[i + 3] == '0');
        assert(hex_val(s[i + 4]) == hi);
        assert(hex_val(s[i + 5]) == lo);
        assert(16 * hi + lo == c as u32 as int);
        assert(((c as u32 as int) as char) == c);
    }
}

/// Splitting a known concatenation at a position into its two parts.
proof fn lemma_subrange_concat(s: Seq<char>, i: int, a: Seq<char>, b: Seq<char>)
    requires
        0 <= i,
        i + a.len() + b.len() <= s.len(),
        s.subrange(i, i + a.len() + b.len()) == a + b,
    ensures
        s.subrange(i, i + a.len() as int) == a,
        s.subrange(i + a.len() as int, i + a.len() + b.len()) == b,
{
    let whole = s.subrange(i, i + a.len() + b.len());
    assert forall|k: int| 0 <= k < a.len() implies s.subrange(i, i + a.len() as int)[k] == a[k] by {
        assert(whole[k] == (a + b)[k]);
    }
    assert(s.subrange(i, i + a.len() as int) =~= a);
    assert forall|k: int| 0 <= k < b.len() implies s.subrange(
        i + a.len() as int,
        i + a.len() + b.len(),
    )[k] == b[k] by {
        assert(whole[a.len() + k] == (a + b)[a.len() + k]);
    }
    assert(s.subrange(i + a.len() as int, i + a.len() + b.len()) =~= b);
}

/// Reading back an emitted string body, up to the closing quote that
/// follows it, gives the original character sequence.
proof fn lemma_parse_string_body_emit(s: Seq<char>, i: int, t: Seq<char>)
    requires
        0 <= i,
        i + spec_emit_string_body(t).len() < s.len(),
        s.subrange(i, i + spec_emit_string_body(t).len() as int) == spec_emit_string_body(t),
        s[i + spec_emit_string_body(t).len()] == '"',
    ensures
        spec_parse_string_body(s, i) == Some((t, i + spec_emit_string_body(t).len() + 1)),
    decreases t.len(),
{
    let body = spec_emit_string_body(t);
    if t.len() == 0 {
        assert(s[i] == '"');
    } else {
        let e = escape_char(t[0]);
        let rest = spec_emit_string_body(t.drop_first());
        assert(body == e + rest);
        lemma_subrange_concat(s, i, e, rest);
        let j = i + e.len() as int;
        lemma_escape_shape(t[0]);
        assert forall|k: int| 0 <= k < e.len() implies s[i + k] == e[k] by {
            assert(s.subrange(i, i + e.len() as int)[k] == s[i + k]);
        }
        lemma_parse_string_body_emit(s, j, t.drop_first());
        if e.len() == 1 {
            assert(s[i] == t[0]);
            assert(s[i] != '"' && s[i] != '\\');
            assert(seq![t[0]] + t.drop_first() =~= t);
        } else {
            assert(s[i] == '\\');
            lemma_parse_escape_emit(s, i, t[0]);
            assert(seq![t[0]] + t.drop_first() =~= t);
        }
    }
}

// ---------------------------------------------------------------------------
// The document grammar: emitters.
// ---------------------------------------------------------------------------
/// The emitted identifier: the signed decimal value, negative when indexed.
pub open spec fn spec_emit_id(id: UniqueId) -> Seq<char> {
    if id.is_indexed() {
        seq!['-'] + spec_digits(id.mag_bits() as nat)
    } else {
        spec_digits(id.mag_bits() as nat)
    }
}

/// The emitted timestamp object.
pub open spec fn spec_emit_timestamp(t: Timestamp) -> Seq<char> {
    "{\"secs\":"@ + spec_digits(t.secs as nat) + ",\"nanos\":"@ + spec_digits(t.nanos as nat)
        + "}"@
}

/// The emitted kind: the three plain kinds by name, the two carrying kinds
/// as one-key objects.
pub open spec fn spec_emit_kind(k: KindView) -> Seq<char> {
    match k {
        KindView::Error => "\"Error\""@,
        KindView::Warning => "\"Warning\""@,
        KindView::Information => "\"Information\""@,
        KindView::State(t) => "{\"State\":"@ + spec_emit_string(t) + "}"@,
        KindView::Panic(p) => "{\"Panic\":{\"line\":"@ + spec_digits(p.line as nat) + ",\"file\":"@
            + spec_emit_string(p.file) + ",\"message\":"@ + spec_emit_string(p.message)
            + ",\"backtrace\":"@ + spec_emit_string(p.backtrace) + "}}"@,
    }
}

/// The emitted record object.
pub open spec fn spec_emit_message(m: MessageView) -> Seq<char> {
    "{\"time\":"@ + spec_emit_timestamp(m.time) + ",\"level\":"@ + spec_emit_kind(m.level)
        + ",\"topic\":"@ + spec_emit_string(m.topic) + ",\"message\":"@ + spec_emit_string(
        m.message,
    ) + "}"@
}

/// The emitted entry object: sequence index and record.
pub open spec fn spec_emit_output(o: OutputView) -> Seq<char> {
    "{\"index\":"@ + spec_digits(o.index as nat) + ",\"message\":"@ + spec_emit_message(o.message)
        + "}"@
}

/// The emitted continuation of an entry list: a comma before each entry.
pub open spec fn spec_emit_outputs_tail(list: Seq<OutputView>) -> Seq<char>
    decreases list.len(),
{
    if list.len() == 0 {
        Seq::empty()
    } else {
        ","@ + spec_emit_output(list[0]) + spec_emit_outputs_tail(list.drop_first())
    }
}

/// The emitted entry list, without the surrounding brackets.
pub open spec fn spec_emit_outputs(list: Seq<OutputView>) -> Seq<char> {
    if list.len() == 0 {
        Seq::empty()
    } else {
        spec_emit_output(list[0]) + spec_emit_outputs_tail(list.drop_first())
    }
}

/// The emitted persistence document.
pub open spec fn spec_emit_doc(d: DocView) -> Seq<char> {
    "{\"id\":"@ + spec_emit_id(d.id) + ",\"timestamp\":"@ + spec_emit_timestamp(d.timestamp)
        + ",\"messages\":["@ + spec_emit_outputs(d.messages) + "]}"@
}

// ---------------------------------------------------------------------------
// The document grammar: parsers.
// ---------------------------------------------------------------------------
/// A fixed text read at a position: the position after it, or `None` if the
/// input does not carry that text there.
pub open spec fn spec_parse_lit(s: Seq<char>, i: int, lit: Seq<char>) -> Option<int> {
    if 0 <= i && i + lit.len() <= s.len() && s.subrange(i, i + lit.len() as int) == lit {
        Some(i + lit.len() as int)
    } else {
        None
    }
}

/// A number read at a position, accepted when it fits in a `u64`.
pub open spec fn spec_parse_u64(s: Seq<char>, i: int) -> Option<(u64, int)> {
    match spec_parse_nat(s, i) {
        Some((n, j)) => if n <= u64::MAX {
            Some((n as u64, j))
        } else {
            None
        },
        None => None,
    }
}

/// A number read at a position, accepted when it fits in a `u32`.
pub open spec fn spec_parse_u32(s: Seq<char>, i: int) -> Option<(u32, int)> {
    match spec_parse_nat(s, i) {
        Some((n, j)) => if n <= u32::MAX {
            Some((n as u32, j))
        } else {
            None
        },
        None => None,
    }
}

/// A number read at a position, accepted when it fits in an identifier's
/// magnitude.
pub open spec fn spec_parse_mag(s: Seq<char>, i: int) -> Option<(u128, int)> {
    match spec_parse_nat(s, i) {
        Some((n, j)) => if n <= 0x7FFF_FFFF_FFFF_FFFF_FFFF_FFFF_FFFF_FFFFu128 {
            Some((n as u128, j))
        } else {
            None
        },
        None => None,
    }
}

/// An identifier read at a position: an optional minus sign and a magnitude.
pub open spec fn spec_parse_id(s: Seq<char>, i: int) -> Option<(UniqueId, int)> {
    if 0 <= i < s.len() && s[i] == '-' {
        match spec_parse_mag(s, i + 1) {
            Some((m, j)) => Some((UniqueId::from_parts(true, m), j)),
            None => None,
        }
    } else {
        match spec_parse_mag(s, i) {
            Some((m, j)) => Some((UniqueId::from_parts(false, m), j)),
            None => None,
        }
    }
}

/// A timestamp object read at a position.
pub open spec fn spec_parse_timestamp(s: Seq<char>, i: int) -> Option<(Timestamp, int)> {
    match spec_parse_lit(s, i, "{\"secs\":"@) {
        Some(j1) => match spec_parse_u64(s, j1) {
            Some((secs, j2)) => match spec_parse_lit(s, j2, ",\"nanos\":"@) {
                Some(j3) => match spec_parse_u32(s, j3) {
                    Some((nanos, j4)) => match spec_parse_lit(s, j4, "}"@) {
                        Some(j5) => Some((Timestamp { secs, nanos }, j5)),
                        None => None,
                    },
                    None => None,
                },
                None => None,
            },
            None => None,
        },
        None => None,
    }
}

/// A kind read at a position: the three names are tried first, then the two
/// one-key objects.
pub open spec fn spec_parse_kind(s: Seq<char>, i: int) -> Option<(KindView, int)> {
    match spec_parse_lit(s, i, "\"Error\""@) {
        Some(j) => Some((KindView::Error, j)),
        None => match spec_parse_lit(s, i, "\"Warning\""@) {
            Some(j) => Some((KindView::Warning, j)),
            None => match spec_parse_lit(s, i, "\"Information\""@) {
                Some(j) => Some((KindView::Information, j)),
                None => match spec_parse_lit(s, i, "{\"State\":"@) {
                    Some(j1) => match spec_parse_string(s, j1) {
                        Some((t, j2)) => match spec_parse_lit(s, j2, "}"@) {
                            Some(j3) => Some((KindView::State(t), j3)),
                            None => None,
                        },
                        None => None,
                    },
                    None => match spec_parse_lit(s, i, "{\"Panic\":{\"line\":"@) {
                        Some(j1) => match spec_parse_u32(s, j1) {
                            Some((line, j2)) => match spec_parse_lit(s, j2, ",\"file\":"@) {
                                Some(j3) => match spec_parse_string(s, j3) {
                                    Some((file, j4)) => match spec_parse_lit(
                                        s,
                                        j4,
                                        ",\"message\":"@,
                                    ) {
                                        Some(j5) => match spec_parse_string(s, j5) {
                                            Some((message, j6)) => match spec_parse_lit(
                                                s,
                                                j6,
                                                ",\"backtrace\":"@,
                                            ) {
                                                Some(j7) => match spec_parse_string(s, j7) {
                                                    Some((backtrace, j8)) => match spec_parse_lit(
                                                        s,
                                                        j8,
                                                        "}}"@,
                                                    ) {
                                                        Some(j9) => Some(
                                                            (
                                                                KindView::Panic(
                                                                    PanicView {
                                                                        line,
                                                                        file,
                                                                        message,
                                                                        backtrace,
                                                                    },
                                                                ),
                                                                j9,
                                                            ),
                                                        ),
                                                        None => None,
                                                    },
                                                    None => None,
                                                },
                                                None => None,
                                            },
                                            None => None,
                                        },
                                        None => None,
                                    },
                                    None => None,
                                },
                                None => None,
                            },
                            None => None,
                        },
                        None => None,
                    },
                },
            },
        },
    }
}

/// A record object read at a position.
pub open spec fn spec_parse_message(s: Seq<char>, i: int) -> Option<(MessageView, int)> {
    match spec_parse_lit(s, i, "{\"time\":"@) {
        Some(j1) => match spec_parse_timestamp(s, j1) {
            Some((time, j2)) => match spec_parse_lit(s, j2, ",\"level\":"@) {
                Some(j3) => match spec_parse_kind(s, j3) {
                    Some((level, j4)) => match spec_parse_lit(s, j4, ",\"topic\":"@) {
                        Some(j5) => match spec_parse_string(s, j5) {
                            Some((topic, j6)) => match spec_parse_lit(s, j6, ",\"message\":"@) {
                                Some(j7) => match spec_parse_string(s, j7) {
                                    Some((message, j8)) => match spec_parse_lit(s, j8, "}"@) {
                                        Some(j9) => Some(
                                            (MessageView { time, level, topic, message }, j9),
                                        ),
                                        None => None,
                                    },
                                    None => None,
                                },
                                None => None,
                            },
                            None => None,
                        },
                        None => None,
                    },
                    None => None,
                },
                None => None,
            },
            None => None,
        },
        None => None,
    }
}

/// An entry object read at a position.
pub open spec fn spec_parse_output(s: Seq<char>, i: int) -> Option<(OutputView, int)> {
    match spec_parse_lit(s, i, "{\"index\":"@) {
        Some(j1) => match spec_parse_u64(s, j1) {
            Some((index, j2)) => match spec_parse_lit(s, j2, ",\"message\":"@) {
                Some(j3) => match spec_parse_message(s, j3) {
                    Some((message, j4)) => match spec_parse_lit(s, j4, "}"@) {
                        Some(j5) => Some((OutputView { index, message }, j5)),
                        None => None,
                    },
                    None => None,
                },
                None => None,
            },
            None => None,
        },
        None => None,
    }
}

/// The continuation of an entry list: entries as long as a comma follows.
pub open spec fn spec_parse_outputs_tail(s: Seq<char>, i: int) -> Option<
    (Seq<OutputView>, int),
>
    decreases s.len() - i,
    when 0 <= i <= s.len()
{
    if i < s.len() && s[i] == ',' {
        match spec_parse_output(s, i + 1) {
            Some((o, j)) => if i < j <= s.len() {
                match spec_parse_outputs_tail(s, j) {
                    Some((rest, k)) => Some((seq![o] + rest, k)),
                    None => None,
                }
            } else {
                None
            },
            None => None,
        }
    } else {
        Some((Seq::empty(), i))
    }
}

/// An entry list read at a position, up to but not including the closing
/// bracket.
pub open spec fn spec_parse_outputs(s: Seq<char>, i: int) -> Option<(Seq<OutputView>, int)> {
    if 0 <= i < s.len() && s[i] == ']' {
        Some((Seq::empty(), i))
    } else {
        match spec_parse_output(s, i) {
            Some((o, j)) => if 0 <= i < j <= s.len() {
                match spec_parse_outputs_tail(s, j) {
                    Some((rest, k)) => Some((seq![o] + rest, k)),
                    None => None,
                }
            } else {
                None
            },
            None => None,
        }
    }
}

/// A persistence document read at a position.
pub open spec fn spec_parse_doc_at(s: Seq<char>, i: int) -> Option<(DocView, int)> {
    match spec_parse_lit(s, i, "{\"id\":"@) {
        Some(j1) => match spec_parse_id(s, j1) {
            Some((id, j2)) => match spec_parse_lit(s, j2, ",\"timestamp\":"@) {
                Some(j3) => match spec_parse_timestamp(s, j3) {
                    Some((timestamp, j4)) => match spec_parse_lit(s, j4, ",\"messages\":["@) {
                        Some(j5) => match spec_parse_outputs(s, j5) {
                            Some((messages, j6)) => match spec_parse_lit(s, j6, "]}"@) {
                                Some(j7) => Some((DocView { id, timestamp, messages }, j7)),
                                None => None,
                            },
                            None => None,
                        },
                        None => None,
                    },
                    None => None,
                },
                None => None,
            },
            None => None,
        },
        None => None,
    }
}

/// A full text as a persistence document: the parse must consume everything.
pub open spec fn spec_parse_doc(s: Seq<char>) -> Option<DocView> {
    match spec_parse_doc_at(s, 0) {
        Some((d, j)) => if j == s.len() {
            Some(d)
        } else {
            None
        },
        None => None,
    }
}

/// Reading back an emitted string gives the original character sequence.
proof fn lemma_parse_string_emit(s: Seq<char>, i: int, t: Seq<char>)
    requires
        0 <= i,
        i + spec_emit_string(t).len() <= s.len(),
        s.subrange(i, i + spec_emit_string(t).len() as int) == spec_emit_string(t),
    ensures
        spec_parse_string(s, i) == Some((t, i + spec_emit_string(t).len() as int)),
{
    let body = spec_emit_string_body(t);
    let e = spec_emit_string(t);
    assert forall|k: int| 0 <= k < e.len() implies s[i + k] == e[k] by {
        assert(s.subrange(i, i + e.len() as int)[k] == s[i + k]);
    }
    assert(s[i + 0] == e[0]);
    assert(e[0] == '"');
    assert(s[i] == '"');
    assert forall|k: int| 0 <= k < body.len() implies s.subrange(
        i + 1,
        i + 1 + body.len() as int,
    )[k] == body[k] by {
        assert(s[i + (1 + k)] == e[1 + k]);
        assert(e[1 + k] == body[k]);
    }
    assert(s.subrange(i + 1, i + 1 + body.len() as int) =~= body);
    assert(s[i + 1 + body.len()] == e[e.len() - 1]);
    assert(e[e.len() - 1] == '"');
    lemma_parse_string_body_emit(s, i + 1, t);
}

/// Every character of a block known to sit at `i` in `s`.
proof fn lemma_chars_at(s: Seq<char>, i: int, e: Seq<char>)
    requires
        0 <= i,
        i + e.len() <= s.len(),
        s.subrange(i, i + e.len() as int) == e,
    ensures
        forall|k: int| 0 <= k < e.len() ==> s[i + k] == #[trigger] e[k],
{
    assert forall|k: int| 0 <= k < e.len() implies s[i + k] == #[trigger] e[k] by {
        assert(s.subrange(i, i + e.len() as int)[k] == s[i + k]);
    }
}

/// Reading back an emitted identifier gives that identifier, provided the
/// text continues with a non-digit.
proof fn lemma_parse_id_emit(s: Seq<char>, i: int, id: UniqueId)
    requires
        0 <= i,
        i + spec_emit_id(id).len() < s.len(),
        s.subrange(i, i + spec_emit_id(id).len() as int) == spec_emit_id(id),
        !is_digit_char(s[i + spec_emit_id(id).len()]),
    ensures
        spec_parse_id(s, i) == Some((id, i + spec_emit_id(id).len() as int)),
{
    let ds = spec_digits(id.mag_bits() as nat);
    crate::unique::lemma_from_parts_roundtrip(id);
    if id.is_indexed() {
        let e = spec_emit_id(id);
        assert(e =~= seq!['-'] + ds);
        lemma_subrange_concat(s, i, seq!['-'], ds);
        lemma_chars_at(s, i, e);
        assert(s[i + 0] == e[0]);
        assert(e[0] == '-');
        lemma_parse_nat_emit(s, i + 1, id.mag_bits() as nat);
    } else {
        lemma_parse_nat_emit(s, i, id.mag_bits() as nat);
        lemma_digits_are_digits(id.mag_bits() as nat);
        lemma_chars_at(s, i, ds);
        assert(s[i + 0] == ds[0]);
        assert(is_digit_char(s[i]));
        assert(s[i] != '-');
    }
}

/// Reading back an emitted timestamp gives that timestamp.
proof fn lemma_parse_timestamp_emit(s: Seq<char>, i: int, t: Timestamp)
    requires
        0 <= i,
        i + spec_emit_timestamp(t).len() <= s.len(),
        s.subrange(i, i + spec_emit_timestamp(t).len() as int) == spec_emit_timestamp(t),
    ensures
        spec_parse_timestamp(s, i) == Some((t, i + spec_emit_timestamp(t).len() as int)),
{
    reveal_strlit("{\"secs\":");
    reveal_strlit(",\"nanos\":");
    reveal_strlit("}");
    let l1 = "{\"secs\":"@;
    let d1 = spec_digits(t.secs as nat);
    let l2 = ",\"nanos\":"@;
    let d2 = spec_digits(t.nanos as nat);
    let l3 = "}"@;
    let r4 = d2 + l3;
    let r3 = l2 + r4;
    let r2 = d1 + r3;
    let e = spec_emit_timestamp(t);
    assert(e =~= l1 + r2);
    let j1 = i + l1.len() as int;
    let j2 = j1 + d1.len() as int;
    let j3 = j2 + l2.len() as int;
    let j4 = j3 + d2.len() as int;
    lemma_subrange_concat(s, i, l1, r2);
    lemma_subrange_concat(s, j1, d1, r3);
    lemma_subrange_concat(s, j2, l2, r4);
    lemma_subrange_concat(s, j3, d2, l3);
    assert(s.subrange(j2, j2 + l2.len() as int)[0] == s[j2]);
    assert(s[j2] == ',');
    lemma_parse_nat_emit(s, j1, t.secs as nat);
    assert(s.subrange(j4, j4 + l3.len() as int)[0] == s[j4]);
    assert(s[j4] == '}');
    lemma_parse_nat_emit(s, j3, t.nanos as nat);
    assert(spec_parse_lit(s, i, l1) == Some(j1));
    assert(spec_parse_u64(s, j1) == Some((t.secs, j2)));
    assert(spec_parse_lit(s, j2, l2) == Some(j3));
    assert(spec_parse_u32(s, j3) == Some((t.nanos, j4)));
    assert(spec_parse_lit(s, j4, l3) == Some(j4 + 1));
}

/// Reading back an emitted kind gives that kind.
proof fn lemma_parse_kind_emit(s: Seq<char>, i: int, k: KindView)
    requires
        0 <= i,
        i + spec_emit_kind(k).len() <= s.len(),
        s.subrange(i, i + spec_emit_kind(k).len() as int) == spec_emit_kind(k),
    ensures
        spec_parse_kind(s, i) == Some((k, i + spec_emit_kind(k).len() as int)),
{
    reveal_strlit("\"Error\"");
    reveal_strlit("\"Warning\"");
    reveal_strlit("\"Information\"");
    reveal_strlit("{\"State\":");
    reveal_strlit("{\"Panic\":{\"line\":");
    reveal_strlit(",\"file\":");
    reveal_strlit(",\"message\":");
    reveal_strlit(",\"backtrace\":");
    reveal_strlit("}");
    reveal_strlit("}}");
    let e = spec_emit_kind(k);
    lemma_chars_at(s, i, e);
    let le = "\"Error\""@;
    let lw = "\"Warning\""@;
    let li = "\"Information\""@;
    let ls = "{\"State\":"@;
    let lp = "{\"Panic\":{\"line\":"@;
    match k {
        KindView::Error => {
            assert(spec_parse_lit(s, i, le) == Some(i + le.len() as int));
        },
        KindView::Warning => {
            assert(s[i + 1] == e[1]);
            if i + le.len() <= s.len() && s.subrange(i, i + le.len() as int) == le {
                assert(s.subrange(i, i + le.len() as int)[1] == s[i + 1]);
                assert(false);
            }
            assert(spec_parse_lit(s, i, le) is None);
            assert(spec_parse_lit(s, i, lw) == Some(i + lw.len() as int));
        },
        KindView::Information => {
            assert(s[i + 1] == e[1]);
            if i + le.len() <= s.len() && s.subrange(i, i + le.len() as int) == le {
                assert(s.subrange(i, i + le.len() as int)[1] == s[i + 1]);
                assert(false);
            }
            if i + lw.len() <= s.len() && s.subrange(i, i + lw.len() as int) == lw {
                assert(s.subrange(i, i + lw.len() as int)[1] == s[i + 1]);
                assert(false);
            }
            assert(spec_parse_lit(s, i, le) is None);
            assert(spec_parse_lit(s, i, lw) is None);
            assert(spec_parse_lit(s, i, li) == Some(i + li.len() as int));
        },
        KindView::State(t) => {
            let es = spec_emit_string(t);
            let l3 = "}"@;
            let r2 = es + l3;
            assert(e =~= ls + r2);
            let j1 = i + ls.len() as int;
            let j2 = j1 + es.len() as int;
            lemma_subrange_concat(s, i, ls, r2);
            lemma_subrange_concat(s, j1, es, l3);
            assert(s[i + 0] == e[0]);
            if i + le.len() <= s.len() && s.subrange(i, i + le.len() as int) == le {
                assert(s.subrange(i, i + le.len() as int)[0] == s[i + 0]);
                assert(false);
            }
            if i + lw.len() <= s.len() && s.subrange(i, i + lw.len() as int) == lw {
                assert(s.subrange(i, i + lw.len() as int)[0] == s[i + 0]);
                assert(false);
            }
            if i + li.len() <= s.len() && s.subrange(i, i + li.len() as int) == li {
                assert(s.subrange(i, i + li.len() as int)[0] == s[i + 0]);
                assert(false);
            }
            assert(spec_parse_lit(s, i, le) is None);
            assert(spec_parse_lit(s, i, lw) is None);
            assert(spec_parse_lit(s, i, li) is None);
            assert(spec_parse_lit(s, i, ls) == Some(j1));
            lemma_parse_string_emit(s, j1, t);
            assert(spec_parse_lit(s, j2, l3) == Some(j2 + 1));
        },
        KindView::Panic(p) => {
            let d1 = spec_digits(p.line as nat);
            let l2 = ",\"file\":"@;
            let e1 = spec_emit_string(p.file);
            let l3 = ",\"message\":"@;
            let e2 = spec_emit_string(p.message);
            let l4 = ",\"backtrace\":"@;
            let e3 = spec_emit_string(p.backtrace);
            let l5 = "}}"@;
            let r8 = e3 + l5;
            let r7 = l4 + r8;
            let r6 = e2 + r7;
            let r5 = l3 + r6;
            let r4 = e1 + r5;
            let r3 = l2 + r4;
            let r2 = d1 + r3;
            assert(e =~= lp + r2);
            let j1 = i + lp.len() as int;
            let j2 = j1 + d1.len() as int;
            let j3 = j2 + l2.len() as int;
            let j4 = j3 + e1.len() as int;
            let j5 = j4 + l3.len() as int;
            let j6 = j5 + e2.len() as int;
            let j7 = j6 + l4.len() as int;
            let j8 = j7 + e3.len() as int;
            lemma_subrange_concat(s, i, lp, r2);
            lemma_subrange_concat(s, j1, d1, r3);
            lemma_subrange_concat(s, j2, l2, r4);
            lemma_subrange_concat(s, j3, e1, r5);
            lemma_subrange_concat(s, j4, l3, r6);
            lemma_subrange_concat(s, j5, e2, r7);
            lemma_subrange_concat(s, j6, l4, r8);
            lemma_subrange_concat(s, j7, e3, l5);
            assert(s[i + 0] == e[0]);
            assert(s[i + 2] == e[2]);
            if i + le.len() <= s.len() && s.subrange(i, i + le.len() as int) == le {
                assert(s.subrange(i, i + le.len() as int)[0] == s[i + 0]);
                assert(false);
            }
            if i + lw.len() <= s.len() && s.subrange(i, i + lw.len() as int) == lw {
                assert(s.subrange(i, i + lw.len() as int)[0] == s[i + 0]);
                assert(false);
            }
            if i + li.len() <= s.len() && s.subrange(i, i + li.len() as int) == li {
                assert(s.subrange(i, i + li.len() as int)[0] == s[i + 0]);
                assert(false);
            }
            if i + ls.len() <= s.len() && s.subrange(i, i + ls.len() as int) == ls {
                assert(s.subrange(i, i + ls.len() as int)[2] == s[i + 2]);
                assert(false);
            }
            assert(spec_parse_lit(s, i, le) is None);
            assert(spec_parse_lit(s, i, lw) is None);
            assert(spec_parse_lit(s, i, li) is None);
            assert(spec_parse_lit(s, i, ls) is None);
            assert(spec_parse_lit(s, i, lp) == Some(j1));
            assert(s.subrange(j2, j2 + l2.len() as int)[0] == s[j2]);
            assert(s[j2] == ',');
            lemma_parse_nat_emit(s, j1, p.line as nat);
            lemma_parse_string_emit(s, j2 + l2.len() as int, p.file);
            lemma_parse_string_emit(s, j4 + l3.len() as int, p.message);
            lemma_parse_string_emit(s, j6 + l4.len() as int, p.backtrace);
            assert(spec_parse_u32(s, j1) == Some((p.line, j2)));
            assert(spec_parse_lit(s, j2, l2) == Some(j3));
            assert(spec_parse_lit(s, j4, l3) == Some(j5));
            assert(spec_parse_lit(s, j6, l4) == Some(j7));
            assert(spec_parse_lit(s, j8, l5) == Some(j8 + 2));
        },
    }
}

/// Reading back an emitted record gives that record.
proof fn lemma_parse_message_emit(s: Seq<char>, i: int, m: MessageView)
    requires
        0 <= i,
        i + spec_emit_message(m).len() <= s.len(),
        s.subrange(i, i + spec_emit_message(m).len() as int) == spec_emit_message(m),
    ensures
        spec_parse_message(s, i) == Some((m, i + spec_emit_message(m).len() as int)),
{
    reveal_strlit("{\"time\":");
    reveal_strlit(",\"level\":");
    reveal_strlit(",\"topic\":");
    reveal_strlit(",\"message\":");
    reveal_strlit("}");
    let l1 = "{\"time\":"@;
    let e1 = spec_emit_timestamp(m.time);
    let l2 = ",\"level\":"@;
    let e2 = spec_emit_kind(m.level);
    let l3 = ",\"topic\":"@;
    let e3 = spec_emit_string(m.topic);
    let l4 = ",\"message\":"@;
    let e4 = spec_emit_string(m.message);
    let l5 = "}"@;
    let r8 = e4 + l5;
    let r7 = l4 + r8;
    let r6 = e3 + r7;
    let r5 = l3 + r6;
    let r4 = e2 + r5;
    let r3 = l2 + r4;
    let r2 = e1 + r3;
    let e = spec_emit_message(m);
    assert(e =~= l1 + r2);
    let j1 = i + l1.len() as int;
    let j2 = j1 + e1.len() as int;
    let j3 = j2 + l2.len() as int;
    let j4 = j3 + e2.len() as int;
    let j5 = j4 + l3.len() as int;
    let j6 = j5 + e3.len() as int;
    let j7 = j6 + l4.len() as int;
    let j8 = j7 + e4.len() as int;
    lemma_subrange_concat(s, i, l1, r2);
    lemma_subrange_concat(s, j1, e1, r3);
    lemma_subrange_concat(s, j2, l2, r4);
    lemma_subrange_concat(s, j3, e2, r5);
    lemma_subrange_concat(s, j4, l3, r6);
    lemma_subrange_concat(s, j5, e3, r7);
    lemma_subrange_concat(s, j6, l4, r8);
    lemma_subrange_concat(s, j7, e4, l5);
    lemma_parse_timestamp_emit(s, j1, m.time);
    lemma_parse_kind_emit(s, j3, m.level);
    lemma_parse_string_emit(s, j5, m.topic);
    lemma_parse_string_emit(s, j7, m.message);
    assert(spec_parse_lit(s, i, l1) == Some(j1));
    assert(spec_parse_lit(s, j2, l2) == Some(j3));
    assert(spec_parse_lit(s, j4, l3) == Some(j5));
    assert(spec_parse_lit(s, j6, l4) == Some(j7));
    assert(spec_parse_lit(s, j8, l5) == Some(j8 + 1));
}

/// Reading back an emitted entry gives that entry.
proof fn lemma_parse_output_emit(s: Seq<char>, i: int, o: OutputView)
    requires
        0 <= i,
        i + spec_emit_output(o).len() <= s.len(),
        s.subrange(i, i + spec_emit_output(o).len() as int) == spec_emit_output(o),
    ensures
        spec_parse_output(s, i) == Some((o, i + spec_emit_output(o).len() as int)),
{
    reveal_strlit("{\"index\":");
    reveal_strlit(",\"message\":");
    reveal_strlit("}");
    let l1 = "{\"index\":"@;
    let d1 = spec_digits(o.index as nat);
    let l2 = ",\"message\":"@;
    let e1 = spec_emit_message(o.message);
    let l3 = "}"@;
    let r4 = e1 + l3;
    let r3 = l2 + r4;
    let r2 = d1 + r3;
    let e = spec_emit_output(o);
    assert(e =~= l1 + r2);
    let j1 = i + l1.len() as int;
    let j2 = j1 + d1.len() as int;
    let j3 = j2 + l2.len() as int;
    let j4 = j3 + e1.len() as int;
    lemma_subrange_concat(s, i, l1, r2);
    lemma_subrange_concat(s, j1, d1, r3);
    lemma_subrange_concat(s, j2, l2, r4);
    lemma_subrange_concat(s, j3, e1, l3);
    assert(s.subrange(j2, j2 + l2.len() as int)[0] == s[j2]);
    assert(s[j2] == ',');
    lemma_parse_nat_emit(s, j1, o.index as nat);
    lemma_parse_message_emit(s, j3, o.message);
    assert(spec_parse_lit(s, i, l1) == Some(j1));
    assert(spec_parse_u64(s, j1) == Some((o.index, j2)));
    assert(spec_parse_lit(s, j2, l2) == Some(j3));
    assert(spec_parse_lit(s, j4, l3) == Some(j4 + 1));
}

/// Reading back an emitted entry-list continuation, stopped by the closing
/// bracket that follows it, gives the original entries.
proof fn lemma_parse_outputs_tail_emit(s: Seq<char>, i: int, list: Seq<OutputView>)
    requires
        0 <= i,
        i + spec_emit_outputs_tail(list).len() < s.len(),
        s.subrange(i, i + spec_emit_outputs_tail(list).len() as int) == spec_emit_outputs_tail(
            list,
        ),
        s[i + spec_emit_outputs_tail(list).len()] == ']',
    ensures
        spec_parse_outputs_tail(s, i) == Some((list, i + spec_emit_outputs_tail(list).len() as int)),
    decreases list.len(),
{
    reveal_strlit(",");
    if list.len() == 0 {
        assert(s[i] == ']');
    } else {
        let lc = ","@;
        let eo = spec_emit_output(list[0]);
        let rest = spec_emit_outputs_tail(list.drop_first());
        let e = spec_emit_outputs_tail(list);
        let r2 = eo + rest;
        assert(e =~= lc + r2);
        let j1 = i + lc.len() as int;
        let j2 = j1 + eo.len() as int;
        lemma_subrange_concat(s, i, lc, r2);
        lemma_subrange_concat(s, j1, eo, rest);
        assert(s.subrange(i, i + lc.len() as int)[0] == s[i + 0]);
        assert(s[i] == ',');
        lemma_parse_output_emit(s, j1, list[0]);
        lemma_parse_outputs_tail_emit(s, j2, list.drop_first());
        assert(seq![list[0]] + list.drop_first() =~= list);
    }
}

/// Reading back an emitted entry list, stopped by the closing bracket that
/// follows it, gives the original entries.
#[verifier::rlimit(60)]
proof fn lemma_parse_outputs_emit(s: Seq<char>, i: int, list: Seq<OutputView>)
    requires
        0 <= i,
        i + spec_emit_outputs(list).len() < s.len(),
        s.subrange(i, i + spec_emit_outputs(list).len() as int) == spec_emit_outputs(list),
        s[i + spec_emit_outputs(list).len()] == ']',
    ensures
        spec_parse_outputs(s, i) == Some((list, i + spec_emit_outputs(list).len() as int)),
{
    reveal_strlit("{\"index\":");
    if list.len() == 0 {
        assert(s[i] == ']');
    } else {
        let eo = spec_emit_output(list[0]);
        let rest = spec_emit_outputs_tail(list.drop_first());
        let e = spec_emit_outputs(list);
        assert(e =~= eo + rest);
        let j1 = i + eo.len() as int;
        lemma_subrange_concat(s, i, eo, rest);
        let l1 = "{\"index\":"@;
        let eom = spec_emit_output(list[0]);
        assert(eom.subrange(0, l1.len() as int) =~= l1) by {
            assert(eom =~= l1 + (eom.subrange(l1.len() as int, eom.len() as int)));
        }
        assert(s.subrange(i, i + eo.len() as int)[0] == s[i + 0]);
        assert(eo[0] == l1[0]);
        assert(s[i] == '{');
        assert(s[i] != ']');
        lemma_parse_output_emit(s, i, list[0]);
        lemma_parse_outputs_tail_emit(s, j1, list.drop_first());
        assert(seq![list[0]] + list.drop_first() =~= list);
    }
}

/// Reading back an emitted document at a position gives that document.
#[verifier::rlimit(60)]
proof fn lemma_parse_doc_at_emit(s: Seq<char>, i: int, d: DocView)
    requires
        0 <= i,
        i + spec_emit_doc(d).len() <= s.len(),
        s.subrange(i, i + spec_emit_doc(d).len() as int) == spec_emit_doc(d),
    ensures
        spec_parse_doc_at(s, i) == Some((d, i + spec_emit_doc(d).len() as int)),
{
    reveal_strlit("{\"id\":");
    reveal_strlit(",\"timestamp\":");
    reveal_strlit(",\"messages\":[");
    reveal_strlit("]}");
    let l1 = "{\"id\":"@;
    let e1 = spec_emit_id(d.id);
    let l2 = ",\"timestamp\":"@;
    let e2 = spec_emit_timestamp(d.timestamp);
    let l3 = ",\"messages\":["@;
    let e3 = spec_emit_outputs(d.messages);
    let l4 = "]}"@;
    let r6 = e3 + l4;
    let r5 = l3 + r6;
    let r4 = e2 + r5;
    let r3 = l2 + r4;
    let r2 = e1 + r3;
    let e = spec_emit_doc(d);
    assert(e =~= l1 + r2);
    let j1 = i + l1.len() as int;
    let j2 = j1 + e1.len() as int;
    let j3 = j2 + l2.len() as int;
    let j4 = j3 + e2.len() as int;
    let j5 = j4 + l3.len() as int;
    let j6 = j5 + e3.len() as int;
    lemma_subrange_concat(s, i, l1, r2);
    lemma_subrange_concat(s, j1, e1, r3);
    lemma_subrange_concat(s, j2, l2, r4);
    lemma_subrange_concat(s, j3, e2, r5);
    lemma_subrange_concat(s, j4, l3, r6);
    lemma_subrange_concat(s, j5, e3, l4);
    assert(s.subrange(j2, j2 + l2.len() as int)[0] == s[j2]);
    assert(s[j2] == ',');
    assert(!is_digit_char(','));
    lemma_parse_id_emit(s, j1, d.id);
    lemma_parse_timestamp_emit(s, j3, d.timestamp);
    assert(s.subrange(j6, j6 + l4.len() as int)[0] == s[j6]);
    assert(s[j6] == ']');
    lemma_parse_outputs_emit(s, j5, d.messages);
    assert(spec_parse_lit(s, i, l1) == Some(j1));
    assert(spec_parse_lit(s, j2, l2) == Some(j3));
    assert(spec_parse_lit(s, j4, l3) == Some(j5));
    assert(spec_parse_lit(s, j6, l4) == Some(j6 + 2));
}

// ---------------------------------------------------------------------------
// The emitter.
// ---------------------------------------------------------------------------
/// Relies on `String::push`: appends exactly one character.
#[verifier::external_body]
fn push_char(out: &mut String, c: char)
    ensures
        final(out)@ == old(out)@.push(c),
{
    out.push(c);
}

/// The characters of a string slice, in order.
fn str_to_chars(t: &str) -> (v: Vec<char>)
    ensures
        v@ == t@,
{
    broadcast use vstd::string::group_string_axioms;

    let mut it = t.chars();
    let mut v: Vec<char> = Vec::new();
    loop
        invariant
            v@ + it.remaining() == t@,
            it.decrease() is Some,
        decreases it.decrease()->0,
    {
        match it.next() {
            Some(c) => {
                v.push(c);
            },
            None => {
                proof {
                    assert(v@ =~= t@);
                }
                return v;
            },
        }
    }
}

/// A string built from a sequence of characters, in order.
fn chars_to_string(v: &Vec<char>) -> (s: String)
    ensures
        s@ == v@,
{
    let mut s = String::new();
    let n = v.len();
    let mut k: usize = 0;
    while k < n
        invariant
            k <= n,
            n == v.len(),
            s@ == v@.subrange(0, k as int),
        decreases n - k,
    {
        push_char(&mut s, v[k]);
        proof {
            assert(v@.subrange(0, k + 1 as int) =~= v@.subrange(0, k as int).push(v@[k as int]));
        }
        k += 1;
    }
    proof {
        assert(v@.subrange(0, n as int) =~= v@);
    }
    s
}

/// The decimal digit character of a value below ten.
fn digit_char_exec(d: u128) -> (c: char)
    requires
        d < 10,
    ensures
        c == digit_char(d as int),
{
    if d == 0 {
        '0'
    } else if d == 1 {
        '1'
    } else if d == 2 {
        '2'
    } else if d == 3 {
        '3'
    } else if d == 4 {
        '4'
    } else if d == 5 {
        '5'
    } else if d == 6 {
        '6'
    } else if d == 7 {
        '7'
    } else if d == 8 {
        '8'
    } else {
        '9'
    }
}

/// The lower-case hexadecimal digit character of a value below sixteen.
fn hex_char_exec(d: u32) -> (c: char)
    requires
        d < 16,
    ensures
        c == hex_char(d as int),
{
    if d < 10 {
        digit_char_exec(d as u128)
    } else if d == 10 {
        'a'
    } else if d == 11 {
        'b'
    } else if d == 12 {
        'c'
    } else if d == 13 {
        'd'
    } else if d == 14 {
        'e'
    } else {
        'f'
    }
}

/// Appends the decimal digits of a number.
fn push_number(out: &mut String, n: u128)
    ensures
        final(out)@ == old(out)@ + spec_digits(n as nat),
    decreases n,
{
    if n < 10 {
        push_char(out, digit_char_exec(n));
        proof {
            assert(out@ =~= old(out)@ + spec_digits(n as nat));
        }
    } else {
        push_number(out, n / 10);
        push_char(out, digit_char_exec(n % 10));
        proof {
            assert(out@ =~= old(out)@ + spec_digits(n as nat));
        }
    }
}

/// Appends the escaped form of one character.
fn push_escaped_char(out: &mut String, c: char)
    ensures
        final(out)@ == old(out)@ + escape_char(c),
{
    if c == '"' {
        push_char(out, '\\');
        push_char(out, '"');
        proof {
            assert(out@ =~= old(out)@ + escape_char(c));
        }
    } else if c == '\\' {
        push_char(out, '\\');
        push_char(out, '\\');
        proof {
            assert(out@ =~= old(out)@ + escape_char(c));
        }
    } else if c == '\n' {
        push_char(out, '\\');
        push_char(out, 'n');
        proof {
            assert(out@ =~= old(out)@ + escape_char(c));
        }
    } else if c == '\r' {
        push_char(out, '\\');
        push_char(out, 'r');
        proof {
            assert(out@ =~= old(out)@ + escape_char(c));
        }
    } else if c == '\t' {
        push_char(out, '\\');
        push_char(out, 't');
        proof {
            assert(out@ =~= old(out)@ + escape_char(c));
        }
    } else {
        let code: u32 = c as u32;
        if code < 32 {
            push_char(out, '\\');
            push_char(out, 'u');
            push_char(out, '0');
            push_char(out, '0');
            push_char(out, hex_char_exec(code / 16));
            push_char(out, hex_char_exec(code % 16));
            proof {
                assert(out@ =~= old(out)@ + escape_char(c));
            }
        } else {
            push_char(out, c);
            proof {
                assert(out@ =~= old(out)@ + escape_char(c));
            }
        }
    }
}

/// Appending one more character to a string body appends its escape.
proof fn lemma_emit_body_snoc(t: Seq<char>, c: char)
    ensures
        spec_emit_string_body(t.push(c)) == spec_emit_string_body(t) + escape_char(c),
    decreases t.len(),
{
    if t.len() == 0 {
        assert(t.push(c)[0] == c);
        assert(t.push(c).drop_first() =~= t);
        assert(spec_emit_string_body(t.push(c)) == escape_char(c) + spec_emit_string_body(t));
        assert(spec_emit_string_body(t) =~= Seq::<char>::empty());
        assert(escape_char(c) + Seq::<char>::empty() =~= escape_char(c));
        assert(Seq::<char>::empty() + escape_char(c) =~= escape_char(c));
    } else {
        lemma_emit_body_snoc(t.drop_first(), c);
        assert(t.push(c)[0] == t[0]);
        assert(t.push(c).drop_first() =~= t.drop_first().push(c));
        assert(escape_char(t[0]) + (spec_emit_string_body(t.drop_first()) + escape_char(c)) =~= (
        escape_char(t[0]) + spec_emit_string_body(t.drop_first())) + escape_char(c));
    }
}

/// Appends the quoted, escaped form of a string.
fn push_string(out: &mut String, t: &str)
    ensures
        final(out)@ == old(out)@ + spec_emit_string(t@),
{
    push_char(out, '"');
    let v = str_to_chars(t);
    let n = v.len();
    proof {
        assert(out@ =~= old(out)@ + seq!['"'] + spec_emit_string_body(t@.subrange(0, 0)));
    }
    let mut k: usize = 0;
    while k < n
        invariant
            k <= n,
            n == v.len(),
            v@ == t@,
            out@ == old(out)@ + seq!['"'] + spec_emit_string_body(t@.subrange(0, k as int)),
        decreases n - k,
    {
        push_escaped_char(out, v[k]);
        proof {
            lemma_emit_body_snoc(t@.subrange(0, k as int), t@[k as int]);
            assert(t@.subrange(0, k + 1 as int) =~= t@.subrange(0, k as int).push(t@[k as int]));
            assert(out@ =~= old(out)@ + seq!['"'] + spec_emit_string_body(
                t@.subrange(0, k + 1 as int),
            ));
        }
        k += 1;
    }
    push_char(out, '"');
    proof {
        assert(t@.subrange(0, n as int) =~= t@);
        assert(out@ =~= old(out)@ + spec_emit_string(t@));
    }
}

/// Appends the emitted form of a timestamp.
fn push_timestamp(out: &mut String, t: &Timestamp)
    ensures
        final(out)@ == old(out)@ + spec_emit_timestamp(*t),
{
    out.append("{\"secs\":");
    push_number(out, t.secs as u128);
    out.append(",\"nanos\":");
    push_number(out, t.nanos as u128);
    out.append("}");
    proof {
        assert(out@ =~= old(out)@ + spec_emit_timestamp(*t));
    }
}

/// Appends the emitted form of a kind.
fn push_kind(out: &mut String, k: &LogKind)
    ensures
        final(out)@ == old(out)@ + spec_emit_kind(k@),
{
    match k {
        LogKind::Error => {
            out.append("\"Error\"");
            proof {
                assert(out@ =~= old(out)@ + spec_emit_kind(k@));
            }
        },
        LogKind::Warning => {
            out.append("\"Warning\"");
            proof {
                assert(out@ =~= old(out)@ + spec_emit_kind(k@));
            }
        },
        LogKind::Information => {
            out.append("\"Information\"");
            proof {
                assert(out@ =~= old(out)@ + spec_emit_kind(k@));
            }
        },
        LogKind::State(t) => {
            out.append("{\"State\":");
            push_string(out, t.as_str());
            out.append("}");
            proof {
                assert(out@ =~= old(out)@ + spec_emit_kind(k@));
            }
        },
        LogKind::Panic(p) => {
            out.append("{\"Panic\":{\"line\":");
            push_number(out, p.line as u128);
            out.append(",\"file\":");
            push_string(out, p.file.as_str());
            out.append(",\"message\":");
            push_string(out, p.message.as_str());
            out.append(",\"backtrace\":");
            push_string(out, p.backtrace.as_str());
            out.append("}}");
            proof {
                assert(out@ =~= old(out)@ + spec_emit_kind(k@));
            }
        },
    }
}

/// Appends the emitted form of a record.
fn push_message(out: &mut String, m: &StructuredLogMessage)
    ensures
        final(out)@ == old(out)@ + spec_emit_message(m@),
{
    out.append("{\"time\":");
    push_timestamp(out, &m.time);
    out.append(",\"level\":");
    push_kind(out, &m.level);
    out.append(",\"topic\":");
    push_string(out, m.topic.as_str());
    out.append(",\"message\":");
    push_string(out, m.message.as_str());
    out.append("}");
    proof {
        assert(out@ =~= old(out)@ + spec_emit_message(m@));
    }
}

/// Appends the emitted form of an entry.
fn push_output(out: &mut String, o: &StructuredLogOutput)
    ensures
        final(out)@ == old(out)@ + spec_emit_output(o@),
{
    out.append("{\"index\":");
    push_number(out, o.index as u128);
    out.append(",\"message\":");
    push_message(out, &o.message);
    out.append("}");
    proof {
        assert(out@ =~= old(out)@ + spec_emit_output(o@));
    }
}

/// Appending one more entry to a list continuation appends a comma and the
/// entry.
#[verifier::rlimit(60)]
proof fn lemma_emit_outputs_tail_snoc(l: Seq<OutputView>, o: OutputView)
    ensures
        spec_emit_outputs_tail(l.push(o)) == spec_emit_outputs_tail(l) + (","@ + spec_emit_output(
            o,
        )),
    decreases l.len(),
{
    if l.len() == 0 {
        assert(l.push(o)[0] == o);
        assert(l.push(o).drop_first() =~= l);
        assert(spec_emit_outputs_tail(l.push(o)) == (","@ + spec_emit_output(o))
            + spec_emit_outputs_tail(l));
        assert(spec_emit_outputs_tail(l) =~= Seq::<char>::empty());
        assert((","@ + spec_emit_output(o)) + Seq::<char>::empty() =~= ","@ + spec_emit_output(o));
        assert(Seq::<char>::empty() + (","@ + spec_emit_output(o)) =~= ","@ + spec_emit_output(o));
    } else {
        lemma_emit_outputs_tail_snoc(l.drop_first(), o);
        assert(l.push(o)[0] == l[0]);
        assert(l.push(o).drop_first() =~= l.drop_first().push(o));
        assert((","@ + spec_emit_output(l[0])) + (spec_emit_outputs_tail(l.drop_first()) + (","@
            + spec_emit_output(o))) =~= ((","@ + spec_emit_output(l[0]) + spec_emit_outputs_tail(
            l.drop_first(),
        )) + (","@ + spec_emit_output(o))));
    }
}

/// Appending one more entry to a list appends the entry, with a comma when
/// the list was nonempty.
proof fn lemma_emit_outputs_snoc(l: Seq<OutputView>, o: OutputView)
    ensures
        spec_emit_outputs(l.push(o)) == spec_emit_outputs(l) + (if l.len() == 0 {
            spec_emit_output(o)
        } else {
            ","@ + spec_emit_output(o)
        }),
{
    if l.len() == 0 {
        assert(l.push(o)[0] == o);
        assert(l.push(o).drop_first() =~= Seq::<OutputView>::empty());
        assert(spec_emit_outputs(l.push(o)) =~= spec_emit_outputs(l) + spec_emit_output(o));
    } else {
        lemma_emit_outputs_tail_snoc(l.drop_first(), o);
        assert(l.push(o)[0] == l[0]);
        assert(l.push(o).drop_first() =~= l.drop_first().push(o));
        assert(spec_emit_output(l[0]) + (spec_emit_outputs_tail(l.drop_first()) + (","@
            + spec_emit_output(o))) =~= (spec_emit_output(l[0]) + spec_emit_outputs_tail(
            l.drop_first(),
        )) + (","@ + spec_emit_output(o)));
    }
}

/// The canonical text of a persistence document.
pub fn emit_document(d: &LogData) -> (out: String)
    ensures
        out@ == spec_emit_doc(d@),
{
    let mut out = String::new();
    out.append("{\"id\":");
    if d.id.is_indexed_part() {
        push_char(&mut out, '-');
    }
    push_number(&mut out, d.id.mag_part());
    proof {
        assert(out@ =~= "{\"id\":"@ + spec_emit_id(d@.id));
    }
    out.append(",\"timestamp\":");
    push_timestamp(&mut out, &d.timestamp);
    out.append(",\"messages\":[");
    let n = d.messages.len();
    proof {
        assert(d@.messages.subrange(0, 0) =~= Seq::<OutputView>::empty());
        assert(out@ =~= "{\"id\":"@ + spec_emit_id(d@.id) + ",\"timestamp\":"@
            + spec_emit_timestamp(d@.timestamp) + ",\"messages\":["@ + spec_emit_outputs(
            d@.messages.subrange(0, 0),
        ));
    }
    let mut k: usize = 0;
    while k < n
        invariant
            k <= n,
            n == d.messages.len(),
            d@.messages.len() == n,
            out@ == "{\"id\":"@ + spec_emit_id(d@.id) + ",\"timestamp\":"@ + spec_emit_timestamp(
                d@.timestamp,
            ) + ",\"messages\":["@ + spec_emit_outputs(d@.messages.subrange(0, k as int)),
        decreases n - k,
    {
        if k > 0 {
            out.append(",");
        }
        push_output(&mut out, &d.messages[k]);
        proof {
            lemma_emit_outputs_snoc(d@.messages.subrange(0, k as int), d@.messages[k as int]);
            assert(d@.messages.subrange(0, k + 1 as int) =~= d@.messages.subrange(
                0,
                k as int,
            ).push(d@.messages[k as int]));
            assert(d@.messages[k as int] == d.messages@[k as int]@);
            assert(out@ =~= "{\"id\":"@ + spec_emit_id(d@.id) + ",\"timestamp\":"@
                + spec_emit_timestamp(d@.timestamp) + ",\"messages\":["@ + spec_emit_outputs(
                d@.messages.subrange(0, k + 1 as int),
            ));
        }
        k += 1;
    }
    out.append("]}");
    proof {
        assert(d@.messages.subrange(0, n as int) =~= d@.messages);
        assert(out@ =~= spec_emit_doc(d@));
    }
    out
}

// ---------------------------------------------------------------------------
// The parser.
// ---------------------------------------------------------------------------
/// Whether a character is a decimal digit.
fn is_digit_exec(c: char) -> (b: bool)
    ensures
        b == is_digit_char(c),
{
    c == '0' || c == '1' || c == '2' || c == '3' || c == '4' || c == '5' || c == '6' || c == '7'
        || c == '8' || c == '9'
}

/// The value of a decimal digit character.
fn digit_val_exec(c: char) -> (d: u128)
    requires
        is_digit_char(c),
    ensures
        d == digit_val(c),
        d < 10,
{
    if c == '0' {
        0
    } else if c == '1' {
        1
    } else if c == '2' {
        2
    } else if c == '3' {
        3
    } else if c == '4' {
        4
    } else if c == '5' {
        5
    } else if c == '6' {
        6
    } else if c == '7' {
        7
    } else if c == '8' {
        8
    } else {
        9
    }
}

/// The value of a hexadecimal digit character, if it is one.
fn hex_val_exec(c: char) -> (r: Option<u32>)
    ensures
        r is Some <==> hex_val(c) >= 0,
        r matches Some(d) ==> d == hex_val(c) && d < 16,
{
    if is_digit_exec(c) {
        Some(digit_val_exec(c) as u32)
    } else if c == 'a' {
        Some(10)
    } else if c == 'b' {
        Some(11)
    } else if c == 'c' {
        Some(12)
    } else if c == 'd' {
        Some(13)
    } else if c == 'e' {
        Some(14)
    } else if c == 'f' {
        Some(15)
    } else {
        None
    }
}

/// A fixed text read at a position.
fn match_lit(s: &Vec<char>, i: usize, lit: &str) -> (r: Option<usize>)
    ensures
        spec_parse_lit(s@, i as int, lit@) is Some <==> r is Some,
        r matches Some(j) ==> spec_parse_lit(s@, i as int, lit@) == Some(j as int),
{
    let n = lit.unicode_len();
    let sl = s.len();
    if i > sl || n > sl - i {
        return None;
    }
    let mut k: usize = 0;
    while k < n
        invariant
            k <= n,
            n == lit@.len(),
            i + n <= sl,
            sl == s@.len(),
            forall|q: int| 0 <= q < k ==> s@[i + q] == lit@[q],
        decreases n - k,
    {
        if s[i + k] != lit.get_char(k) {
            proof {
                if s@.subrange(i as int, i + lit@.len() as int) == lit@ {
                    assert(s@.subrange(i as int, i + lit@.len() as int)[k as int] == s@[i + k]);
                }
            }
            return None;
        }
        k += 1;
    }
    proof {
        assert(s@.subrange(i as int, i + lit@.len() as int) =~= lit@);
    }
    Some(i + n)
}

/// A number read at a position, as long as it fits the widest machine word.
fn scan_number(s: &Vec<char>, i: usize) -> (r: Option<(u128, usize)>)
    ensures
        match spec_parse_nat(s@, i as int) {
            Some((n, j)) => if n <= u128::MAX {
                r matches Some(p) && p.0 == n && p.1 == j
            } else {
                r is None
            },
            None => r is None,
        },
{
    if i > s.len() {
        return None;
    }
    let mut j: usize = i;
    let mut acc: u128 = 0;
    let mut over = false;
    while j < s.len() && is_digit_exec(s[j])
        invariant
            i <= j <= s@.len(),
            forall|q: int| i <= q < j ==> is_digit_char(#[trigger] s@[q]),
            !over ==> acc == nat_of_digits(s@.subrange(i as int, j as int)),
            over ==> nat_of_digits(s@.subrange(i as int, j as int)) > u128::MAX,
        decreases s@.len() - j,
    {
        let d = digit_val_exec(s[j]);
        proof {
            let pre = s@.subrange(i as int, j as int);
            let post = s@.subrange(i as int, j + 1 as int);
            assert(post.drop_last() =~= pre);
            assert(post.last() == s@[j as int]);
            assert(nat_of_digits(post) == nat_of_digits(pre) * 10 + d);
        }
        if over {
            proof {
                let pre = s@.subrange(i as int, j as int);
                assert(nat_of_digits(pre) * 10 >= nat_of_digits(pre)) by (nonlinear_arith);
            }
        } else if acc > (u128::MAX - d) / 10 {
            proof {
                let m = (u128::MAX - d) as int;
                assert(m == 10 * (m / 10) + m % 10);
                assert(acc * 10 >= (m / 10 + 1) * 10) by (nonlinear_arith)
                    requires
                        acc >= m / 10 + 1,
                ;
                assert(acc * 10 + d > u128::MAX);
            }
            over = true;
        } else {
            proof {
                let m = (u128::MAX - d) as int;
                assert(m == 10 * (m / 10) + m % 10);
                assert(acc * 10 <= (m / 10) * 10) by (nonlinear_arith)
                    requires
                        acc <= m / 10,
                ;
                assert(acc * 10 + d <= u128::MAX);
            }
            acc = acc * 10 + d;
        }
        j += 1;
    }
    proof {
        lemma_digit_run_of_block(s@, i as int, j as int);
    }
    if j == i {
        None
    } else if over {
        None
    } else {
        Some((acc, j))
    }
}

/// A number read at a position, accepted when it fits in a `u64`.
fn parse_u64_at(s: &Vec<char>, i: usize) -> (r: Option<(u64, usize)>)
    ensures
        spec_parse_u64(s@, i as int) is Some <==> r is Some,
        r matches Some((v, j)) ==> spec_parse_u64(s@, i as int) == Some((v, j as int)),
{
    match scan_number(s, i) {
        Some((n, j)) => if n <= u64::MAX as u128 {
            Some((n as u64, j))
        } else {
            None
        },
        None => None,
    }
}

/// A number read at a position, accepted when it fits in a `u32`.
fn parse_u32_at(s: &Vec<char>, i: usize) -> (r: Option<(u32, usize)>)
    ensures
        spec_parse_u32(s@, i as int) is Some <==> r is Some,
        r matches Some((v, j)) ==> spec_parse_u32(s@, i as int) == Some((v, j as int)),
{
    match scan_number(s, i) {
        Some((n, j)) => if n <= u32::MAX as u128 {
            Some((n as u32, j))
        } else {
            None
        },
        None => None,
    }
}

/// A number read at a position, accepted when it fits in an identifier's
/// magnitude.
fn parse_mag_at(s: &Vec<char>, i: usize) -> (r: Option<(u128, usize)>)
    ensures
        spec_parse_mag(s@, i as int) is Some <==> r is Some,
        r matches Some((v, j)) ==> spec_parse_mag(s@, i as int) == Some((v, j as int)) && v
            <= 0x7FFF_FFFF_FFFF_FFFF_FFFF_FFFF_FFFF_FFFFu128,
{
    match scan_number(s, i) {
        Some((n, j)) => if n <= 0x7FFF_FFFF_FFFF_FFFF_FFFF_FFFF_FFFF_FFFFu128 {
            Some((n, j))
        } else {
            None
        },
        None => None,
    }
}

/// An identifier read at a position.
fn parse_id_at(s: &Vec<char>, i: usize) -> (r: Option<(UniqueId, usize)>)
    ensures
        spec_parse_id(s@, i as int) is Some <==> r is Some,
        r matches Some((v, j)) ==> spec_parse_id(s@, i as int) == Some((v, j as int)),
{
    if i < s.len() && s[i] == '-' {
        match parse_mag_at(s, i + 1) {
            Some((m, j)) => Some((UniqueId::from_parts_exec(true, m), j)),
            None => None,
        }
    } else {
        match parse_mag_at(s, i) {
            Some((m, j)) => Some((UniqueId::from_parts_exec(false, m), j)),
            None => None,
        }
    }
}

/// A quoted string read at a position.
fn parse_string_at(s: &Vec<char>, i: usize) -> (r: Option<(String, usize)>)
    ensures
        spec_parse_string(s@, i as int) is Some <==> r is Some,
        r matches Some((v, j)) ==> match spec_parse_string(s@, i as int) {
            Some((t, sj)) => v@ == t && j == sj,
            None => false,
        },
{
    if i >= s.len() {
        return None;
    }
    if s[i] != '"' {
        return None;
    }
    let mut acc: Vec<char> = Vec::new();
    let mut cur: usize = i + 1;
    loop
        invariant
            i + 1 <= cur <= s@.len(),
            i < s@.len(),
            s@[i as int] == '"',
            match spec_parse_string_body(s@, cur as int) {
                Some((t, j)) => spec_parse_string_body(s@, i + 1 as int) == Some((acc@ + t, j)),
                None => spec_parse_string_body(s@, i + 1 as int) is None,
            },
        decreases s@.len() - cur,
    {
        if cur >= s.len() {
            return None;
        }
        let c = s[cur];
        if c == '"' {
            let text = chars_to_string(&acc);
            proof {
                assert(acc@ + Seq::<char>::empty() =~= acc@);
            }
            return Some((text, cur + 1));
        } else if c == '\\' {
            if cur + 1 >= s.len() {
                return None;
            }
            let e = s[cur + 1];
            let mut dc: char = ' ';
            let mut nj: usize = cur + 2;
            if e == '"' {
                dc = '"';
            } else if e == '\\' {
                dc = '\\';
            } else if e == 'n' {
                dc = '\n';
            } else if e == 'r' {
                dc = '\r';
            } else if e == 't' {
                dc = '\t';
            } else if e == 'u' {
                if s.len() - cur <= 5 {
                    return None;
                }
                if s[cur + 2] != '0' || s[cur + 3] != '0' {
                    return None;
                }
                let h1o = hex_val_exec(s[cur + 4]);
                let h2o = hex_val_exec(s[cur + 5]);
                if h1o.is_none() || h2o.is_none() {
                    return None;
                }
                let h1 = h1o.unwrap();
                let h2 = h2o.unwrap();
                let code: u32 = 16 * h1 + h2;
                let byte: u8 = code as u8;
                proof {
                    assert(code < 256 ==> byte as u32 == code) by (bit_vector)
                        requires
                            byte == code as u8,
                    ;
                }
                dc = byte as char;
                nj = cur + 6;
                proof {
                    assert(dc == ((16 * hex_val(s@[cur + 4]) + hex_val(s@[cur + 5])) as char));
                }
            } else {
                return None;
            }
            proof {
                assert(spec_parse_escape(s@, cur as int) == Some((dc, nj as int)));
            }
            acc.push(dc);
            proof {
                match spec_parse_string_body(s@, nj as int) {
                    Some((t, j)) => {
                        assert(acc@ + t =~= acc@.drop_last() + (seq![dc] + t));
                    },
                    None => {},
                }
            }
            cur = nj;
        } else {
            acc.push(c);
            proof {
                match spec_parse_string_body(s@, cur + 1 as int) {
                    Some((t, j)) => {
                        assert(acc@ + t =~= acc@.drop_last() + (seq![c] + t));
                    },
                    None => {},
                }
            }
            cur = cur + 1;
        }
    }
}

/// A timestamp object read at a position.
fn parse_timestamp_at(s: &Vec<char>, i: usize) -> (r: Option<(Timestamp, usize)>)
    ensures
        spec_parse_timestamp(s@, i as int) is Some <==> r is Some,
        r matches Some((v, j)) ==> spec_parse_timestamp(s@, i as int) == Some((v, j as int)),
{
    let j1 = match match_lit(s, i, "{\"secs\":") {
        Some(j) => j,
        None => return None,
    };
    let (secs, j2) = match parse_u64_at(s, j1) {
        Some(p) => p,
        None => return None,
    };
    let j3 = match match_lit(s, j2, ",\"nanos\":") {
        Some(j) => j,
        None => return None,
    };
    let (nanos, j4) = match parse_u32_at(s, j3) {
        Some(p) => p,
        None => return None,
    };
    let j5 = match match_lit(s, j4, "}") {
        Some(j) => j,
        None => return None,
    };
    Some((Timestamp { secs, nanos }, j5))
}

/// A kind read at a position.
fn parse_kind_at(s: &Vec<char>, i: usize) -> (r: Option<(LogKind, usize)>)
    ensures
        spec_parse_kind(s@, i as int) is Some <==> r is Some,
        r matches Some((v, j)) ==> match spec_parse_kind(s@, i as int) {
            Some((kv, sj)) => v@ == kv && j == sj,
            None => false,
        },
{
    if let Some(j) = match_lit(s, i, "\"Error\"") {
        return Some((LogKind::Error, j));
    }
    if let Some(j) = match_lit(s, i, "\"Warning\"") {
        return Some((LogKind::Warning, j));
    }
    if let Some(j) = match_lit(s, i, "\"Information\"") {
        return Some((LogKind::Information, j));
    }
    if let Some(j1) = match_lit(s, i, "{\"State\":") {
        let (t, j2) = match parse_string_at(s, j1) {
            Some(p) => p,
            None => return None,
        };
        let j3 = match match_lit(s, j2, "}") {
            Some(j) => j,
            None => return None,
        };
        return Some((LogKind::State(t), j3));
    }
    if let Some(j1) = match_lit(s, i, "{\"Panic\":{\"line\":") {
        let (line, j2) = match parse_u32_at(s, j1) {
            Some(p) => p,
            None => return None,
        };
        let j3 = match match_lit(s, j2, ",\"file\":") {
            Some(j) => j,
            None => return None,
        };
        let (file, j4) = match parse_string_at(s, j3) {
            Some(p) => p,
            None => return None,
        };
        let j5 = match match_lit(s, j4, ",\"message\":") {
            Some(j) => j,
            None => return None,
        };
        let (message, j6) = match parse_string_at(s, j5) {
            Some(p) => p,
            None => return None,
        };
        let j7 = match match_lit(s, j6, ",\"backtrace\":") {
            Some(j) => j,
            None => return None,
        };
        let (backtrace, j8) = match parse_string_at(s, j7) {
            Some(p) => p,
            None => return None,
        };
        let j9 = match match_lit(s, j8, "}}") {
            Some(j) => j,
            None => return None,
        };
        return Some((LogKind::Panic(StructuredPanicInfo::new(line, file, message, backtrace)), j9));
    }
    None
}

/// A record object read at a position.
fn parse_message_at(s: &Vec<char>, i: usize) -> (r: Option<(StructuredLogMessage, usize)>)
    ensures
        spec_parse_message(s@, i as int) is Some <==> r is Some,
        r matches Some((v, j)) ==> match spec_parse_message(s@, i as int) {
            Some((mv, sj)) => v@ == mv && j == sj,
            None => false,
        },
{
    let j1 = match match_lit(s, i, "{\"time\":") {
        Some(j) => j,
        None => return None,
    };
    let (time, j2) = match parse_timestamp_at(s, j1) {
        Some(p) => p,
        None => return None,
    };
    let j3 = match match_lit(s, j2, ",\"level\":") {
        Some(j) => j,
        None => return None,
    };
    let (level, j4) = match parse_kind_at(s, j3) {
        Some(p) => p,
        None => return None,
    };
    let j5 = match match_lit(s, j4, ",\"topic\":") {
        Some(j) => j,
        None => return None,
    };
    let (topic, j6) = match parse_string_at(s, j5) {
        Some(p) => p,
        None => return None,
    };
    let j7 = match match_lit(s, j6, ",\"message\":") {
        Some(j) => j,
        None => return None,
    };
    let (message, j8) = match parse_string_at(s, j7) {
        Some(p) => p,
        None => return None,
    };
    let j9 = match match_lit(s, j8, "}") {
        Some(j) => j,
        None => return None,
    };
    Some((StructuredLogMessage { time, level, topic, message }, j9))
}

/// An entry object read at a position.
fn parse_output_at(s: &Vec<char>, i: usize) -> (r: Option<(StructuredLogOutput, usize)>)
    ensures
        spec_parse_output(s@, i as int) is Some <==> r is Some,
        r matches Some((v, j)) ==> match spec_parse_output(s@, i as int) {
            Some((ov, sj)) => v@ == ov && j == sj,
            None => false,
        },
{
    let j1 = match match_lit(s, i, "{\"index\":") {
        Some(j) => j,
        None => return None,
    };
    let (index, j2) = match parse_u64_at(s, j1) {
        Some(p) => p,
        None => return None,
    };
    let j3 = match match_lit(s, j2, ",\"message\":") {
        Some(j) => j,
        None => return None,
    };
    let (message, j4) = match parse_message_at(s, j3) {
        Some(p) => p,
        None => return None,
    };
    let j5 = match match_lit(s, j4, "}") {
        Some(j) => j,
        None => return None,
    };
    Some((StructuredLogOutput { index, message }, j5))
}

/// An entry list read at a position, up to but not including the closing
/// bracket.
fn parse_outputs_at(s: &Vec<char>, i: usize) -> (r: Option<(Vec<StructuredLogOutput>, usize)>)
    ensures
        spec_parse_outputs(s@, i as int) is Some <==> r is Some,
        r matches Some((v, j)) ==> match spec_parse_outputs(s@, i as int) {
            Some((l, sj)) => crate::log::outputs_view(v@) == l && j == sj,
            None => false,
        },
{
    let mut acc: Vec<StructuredLogOutput> = Vec::new();
    if i < s.len() && s[i] == ']' {
        proof {
            assert(crate::log::outputs_view(acc@) =~= Seq::<OutputView>::empty());
        }
        return Some((acc, i));
    }
    let first = match parse_output_at(s, i) {
        Some(p) => p,
        None => return None,
    };
    let mut cur: usize = first.1;
    if !(i < cur && cur <= s.len()) {
        return None;
    }
    acc.push(first.0);
    proof {
        crate::log::lemma_outputs_view_push(Seq::<StructuredLogOutput>::empty(), first.0);
        assert(crate::log::outputs_view(Seq::<StructuredLogOutput>::empty())
            =~= Seq::<OutputView>::empty());
        assert(crate::log::outputs_view(acc@) =~= seq![first.0@]);
    }
    loop
        invariant
            0 <= cur <= s@.len(),
            match spec_parse_outputs_tail(s@, cur as int) {
                Some((rest, k)) => spec_parse_outputs(s@, i as int) == Some(
                    (crate::log::outputs_view(acc@) + rest, k),
                ),
                None => spec_parse_outputs(s@, i as int) is None,
            },
        decreases s@.len() - cur,
    {
        if cur < s.len() && s[cur] == ',' {
            let ghost pre = acc@;
            let item = match parse_output_at(s, cur + 1) {
                Some(p) => p,
                None => return None,
            };
            let j2 = item.1;
            if !(cur < j2 && j2 <= s.len()) {
                return None;
            }
            acc.push(item.0);
            proof {
                crate::log::lemma_outputs_view_push(pre, item.0);
                match spec_parse_outputs_tail(s@, j2 as int) {
                    Some((rest, k)) => {
                        assert(crate::log::outputs_view(acc@) + rest =~= crate::log::outputs_view(
                            pre,
                        ) + (seq![item.0@] + rest));
                    },
                    None => {},
                }
            }
            cur = j2;
        } else {
            proof {
                assert(crate::log::outputs_view(acc@) + Seq::<OutputView>::empty()
                    =~= crate::log::outputs_view(acc@));
            }
            return Some((acc, cur));
        }
    }
}

/// A persistence document read at a position.
fn parse_doc_at(s: &Vec<char>, i: usize) -> (r: Option<(LogData, usize)>)
    ensures
        spec_parse_doc_at(s@, i as int) is Some <==> r is Some,
        r matches Some((v, j)) ==> match spec_parse_doc_at(s@, i as int) {
            Some((dv, sj)) => v@ == dv && j == sj,
            None => false,
        },
{
    let j1 = match match_lit(s, i, "{\"id\":") {
        Some(j) => j,
        None => return None,
    };
    let (id, j2) = match parse_id_at(s, j1) {
        Some(p) => p,
        None => return None,
    };
    let j3 = match match_lit(s, j2, ",\"timestamp\":") {
        Some(j) => j,
        None => return None,
    };
    let (timestamp, j4) = match parse_timestamp_at(s, j3) {
        Some(p) => p,
        None => return None,
    };
    let j5 = match match_lit(s, j4, ",\"messages\":[") {
        Some(j) => j,
        None => return None,
    };
    let (messages, j6) = match parse_outputs_at(s, j5) {
        Some(p) => p,
        None => return None,
    };
    let j7 = match match_lit(s, j6, "]}") {
        Some(j) => j,
        None => return None,
    };
    Some((LogData { id, timestamp, messages }, j7))
}

/// The persistence document denoted by a full text: the parse must consume
/// the whole text.
pub fn parse_document(text: &str) -> (r: Option<LogData>)
    ensures
        spec_parse_doc(text@) is Some <==> r is Some,
        r matches Some(d) ==> spec_parse_doc(text@) == Some(d@),
{
    let v = str_to_chars(text);
    let (doc, j) = match parse_doc_at(&v, 0) {
        Some(p) => p,
        None => return None,
    };
    if j == v.len() {
        Some(doc)
    } else {
        None
    }
}

/// Round trip of the persistence document: parsing the emitted text of any
/// document yields exactly that document, entry for entry and in order.
pub proof fn lemma_document_round_trip(d: DocView)
    ensures
        spec_parse_doc(spec_emit_doc(d)) == Some(d),
{
    let s = spec_emit_doc(d);
    assert(s.subrange(0, s.len() as int) =~= s);
    lemma_parse_doc_at_emit(s, 0, d);
}

} // verus!
