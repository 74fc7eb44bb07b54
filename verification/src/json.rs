//! Deterministic JSON encoding of a field mapping: one compact object whose
//! values are 64-bit integers or escaped strings.  The encoding is specified
//! character by character and the encoder is proved to produce exactly it.

use vstd::prelude::*;

use crate::fields::{FieldV, FieldValue, RequiredFields, kv_seq, map_of};

verus! {

/// The lower-case hexadecimal digit for `n`.
pub open spec fn hex_digit(n: int) -> char {
    if n < 10 {
        ((48 + n) as u8) as char
    } else {
        ((87 + n) as u8) as char
    }
}

/// The decimal digit for `n`.
pub open spec fn digit10(n: int) -> char {
    ((48 + n) as u8) as char
}

/// How one character appears inside a JSON string: quote and backslash get a
/// backslash escape, control characters a `\u00..` escape, all others stand
/// as themselves.
pub open spec fn escape_char(c: char) -> Seq<char> {
    if c == '"' {
        seq!['\\', '"']
    } else if c == '\\' {
        seq!['\\', '\\']
    } else if (c as u32) < 32 {
        seq!['\\', 'u', '0', '0', hex_digit((c as u32) as int / 16), hex_digit(
            (c as u32) as int % 16,
        )]
    } else {
        seq![c]
    }
}

/// `s` with every character escaped for a JSON string.
pub open spec fn escape_str(s: Seq<char>) -> Seq<char>
    decreases s.len(),
{
    if s.len() == 0 {
        Seq::empty()
    } else {
        escape_str(s.drop_last()) + escape_char(s.last())
    }
}

/// `s` escaped and wrapped in double quotes.
pub open spec fn quoted(s: Seq<char>) -> Seq<char> {
    seq!['"'] + escape_str(s) + seq!['"']
}

/// The decimal rendering of a natural number, no leading zeros except for 0
/// itself.
pub open spec fn dec_nat(n: nat) -> Seq<char>
    decreases n,
{
    if n < 10 {
        seq![digit10(n as int)]
    } else {
        dec_nat(n / 10).push(digit10((n % 10) as int))
    }
}

/// The decimal rendering of an integer, with a leading minus sign when
/// negative.
pub open spec fn dec_int(i: int) -> Seq<char> {
    if i < 0 {
        seq!['-'] + dec_nat((-i) as nat)
    } else {
        dec_nat(i as nat)
    }
}

/// The JSON text of one field value.
pub open spec fn value_text(v: FieldV) -> Seq<char> {
    match v {
        FieldV::N(i) => dec_int(i),
        FieldV::S(s) => quoted(s),
    }
}

/// The JSON text of one `key: value` member.
pub open spec fn entry_text(k: Seq<char>, v: FieldV) -> Seq<char> {
    quoted(k) + seq![':'] + value_text(v)
}

/// The comma-separated members of the object, in entry order.
pub open spec fn body_text(s: Seq<(Seq<char>, FieldV)>) -> Seq<char>
    decreases s.len(),
{
    if s.len() == 0 {
        Seq::empty()
    } else if s.len() == 1 {
        entry_text(s[0].0, s[0].1)
    } else {
        body_text(s.drop_last()) + seq![','] + entry_text(s.last().0, s.last().1)
    }
}

/// The full JSON object text for an entry sequence.
pub open spec fn json_of(s: Seq<(Seq<char>, FieldV)>) -> Seq<char> {
    seq!['{'] + body_text(s) + seq!['}']
}

/// `c` is a lower-case hexadecimal digit.
pub open spec fn is_hex(c: char) -> bool {
    (48 <= c as u32 && c as u32 <= 57) || (97 <= c as u32 && c as u32 <= 102)
}

/// The value of a lower-case hexadecimal digit.
pub open spec fn hex_val(c: char) -> int {
    if c as u32 >= 97 {
        c as u32 - 87
    } else {
        c as u32 - 48
    }
}

/// The character with code `n` (for codes in the scalar range).
pub open spec fn code_char(n: int) -> char {
    (n as u32) as char
}

/// Lexes the body of a JSON string up to its closing quote: the unescaped
/// content, and what follows the quote.  `None` on an unterminated string, a
/// lone backslash or a malformed escape.
pub open spec fn lex_str_body(s: Seq<char>) -> Option<(Seq<char>, Seq<char>)>
    decreases s.len(),
{
    if s.len() == 0 {
        Option::None
    } else if s[0] == '"' {
        Option::Some((Seq::empty(), s.skip(1)))
    } else if s[0] == '\\' {
        if s.len() >= 2 && (s[1] == '"' || s[1] == '\\') {
            match lex_str_body(s.skip(2)) {
                Option::None => Option::None,
                Option::Some(p) => Option::Some((seq![s[1]] + p.0, p.1)),
            }
        } else if s.len() >= 6 && s[1] == 'u' && s[2] == '0' && s[3] == '0' && is_hex(s[4])
            && is_hex(s[5]) {
            match lex_str_body(s.skip(6)) {
                Option::None => Option::None,
                Option::Some(p) => Option::Some(
                    (seq![code_char(hex_val(s[4]) * 16 + hex_val(s[5]))] + p.0, p.1),
                ),
            }
        } else {
            Option::None
        }
    } else {
        match lex_str_body(s.skip(1)) {
            Option::None => Option::None,
            Option::Some(p) => Option::Some((seq![s[0]] + p.0, p.1)),
        }
    }
}

/// `escape_str` can also be read off from the front, one character's escape
/// at a time.
proof fn lemma_escape_str_first(s: Seq<char>)
    requires
        s.len() > 0,
    ensures
        escape_str(s) == escape_char(s[0]) + escape_str(s.skip(1)),
    decreases s.len(),
{
    if s.len() == 1 {
        assert(s.drop_last() =~= Seq::<char>::empty());
        assert(s.skip(1) =~= Seq::<char>::empty());
        assert(escape_str(s) =~= escape_char(s[0]) + escape_str(s.skip(1)));
    } else {
        let bl = s.drop_last();
        lemma_escape_str_first(bl);
        assert(s.skip(1).drop_last() =~= bl.skip(1));
        assert(s.skip(1).last() == s.last());
        assert(escape_str(s.skip(1)) == escape_str(bl.skip(1)) + escape_char(s.last()));
        assert(escape_char(s[0]) + escape_str(s.skip(1)) =~= (escape_char(bl[0]) + escape_str(
            bl.skip(1),
        )) + escape_char(s.last()));
    }
}

/// A lexed string consumed at least its closing quote.
proof fn lemma_lex_str_body_len(s: Seq<char>)
    ensures
        lex_str_body(s) matches Option::Some(p) ==> p.1.len() < s.len(),
    decreases s.len(),
{
    if s.len() == 0 {
    } else if s[0] == '"' {
    } else if s[0] == '\\' {
        if s.len() >= 2 && (s[1] == '"' || s[1] == '\\') {
            lemma_lex_str_body_len(s.skip(2));
        } else if s.len() >= 6 && s[1] == 'u' && s[2] == '0' && s[3] == '0' && is_hex(s[4])
            && is_hex(s[5]) {
            lemma_lex_str_body_len(s.skip(6));
        }
    } else {
        lemma_lex_str_body_len(s.skip(1));
    }
}

/// The string escaping is lossless: lexing the escaped text of any character
/// sequence, a closing quote and a continuation appended, gives back exactly
/// that sequence and that continuation.
pub proof fn lemma_lex_escaped(s: Seq<char>, rest: Seq<char>)
    ensures
        lex_str_body(escape_str(s) + seq!['"'] + rest) == Option::Some((s, rest)),
    decreases s.len(),
{
    let whole = escape_str(s) + seq!['"'] + rest;
    if s.len() == 0 {
        assert(escape_str(s) =~= Seq::<char>::empty());
        assert(whole =~= seq!['"'] + rest);
        assert(whole[0] == '"');
        assert(whole.skip(1) =~= rest);
    } else {
        lemma_escape_str_first(s);
        lemma_lex_escaped(s.skip(1), rest);
        let c = s[0];
        let e = escape_char(c);
        let tail = escape_str(s.skip(1)) + seq!['"'] + rest;
        assert(whole =~= e + tail);
        if c == '"' || c == '\\' {
            assert(whole[0] == '\\' && whole[1] == c);
            assert(whole.skip(2) =~= tail);
            assert(seq![c] + s.skip(1) =~= s);
        } else if (c as u32) < 32 {
            let n = c as u32 as int;
            assert(whole[0] == '\\' && whole[1] == 'u' && whole[2] == '0' && whole[3] == '0');
            assert(whole[4] == hex_digit(n / 16) && whole[5] == hex_digit(n % 16));
            assert(is_hex(hex_digit(n / 16)) && hex_val(hex_digit(n / 16)) == n / 16);
            assert(is_hex(hex_digit(n % 16)) && hex_val(hex_digit(n % 16)) == n % 16);
            assert(whole.skip(6) =~= tail);
            assert((n / 16) * 16 + n % 16 == n) by (nonlinear_arith)
                requires
                    0 <= n < 32,
            ;
            vstd::utf8::char_u32_cast(c, c as u32);
            assert(code_char((n / 16) * 16 + n % 16) == c);
            assert(seq![c] + s.skip(1) =~= s);
        } else {
            assert(whole[0] == c && c != '\\' && c != '"');
            assert(whole.skip(1) =~= tail);
            assert(seq![c] + s.skip(1) =~= s);
        }
    }
}

/// The numeric value that a digit sequence denotes.
pub open spec fn digits_val(s: Seq<char>) -> int
    decreases s.len(),
{
    if s.len() == 0 {
        0
    } else {
        digits_val(s.drop_last()) * 10 + (s.last() as u32 - 48)
    }
}

/// The decimal rendering of a natural number is nonempty, made of decimal
/// digits only, and denotes exactly that number.
pub proof fn lemma_dec_nat_value(n: nat)
    ensures
        dec_nat(n).len() >= 1,
        forall|i: int| 0 <= i < dec_nat(n).len() ==> 48 <= (#[trigger] dec_nat(n)[i]) as u32 <= 57,
        digits_val(dec_nat(n)) == n,
    decreases n,
{
    if n < 10 {
        assert(dec_nat(n) =~= seq![digit10(n as int)]);
        assert(dec_nat(n).drop_last() =~= Seq::<char>::empty());
        assert(dec_nat(n).last() == digit10(n as int));
        assert(digit10(n as int) as u32 == 48 + n);
        assert(digits_val(Seq::<char>::empty()) == 0);
        assert(dec_nat(n).len() == 1);
        assert(digits_val(dec_nat(n)) == digits_val(dec_nat(n).drop_last()) * 10 + (dec_nat(
            n,
        ).last() as u32 - 48));
    } else {
        lemma_dec_nat_value(n / 10);
        let d = digit10((n % 10) as int);
        assert(d as u32 == 48 + n % 10);
        assert(dec_nat(n) == dec_nat(n / 10).push(d));
        assert(dec_nat(n).drop_last() =~= dec_nat(n / 10));
        assert(dec_nat(n).last() == d);
        assert(digits_val(dec_nat(n)) == (n / 10) * 10 + n % 10);
        assert((n / 10) * 10 + n % 10 == n) by (nonlinear_arith);
        assert(forall|i: int|
            0 <= i < dec_nat(n / 10).len() ==> 48 <= (#[trigger] dec_nat(n)[i]) as u32 <= 57);
    }
}

/// Splits off the longest (possibly empty) prefix of decimal digits.
pub open spec fn lex_digits(s: Seq<char>) -> (Seq<char>, Seq<char>)
    decreases s.len(),
{
    if s.len() == 0 || !(48 <= s[0] as u32 && s[0] as u32 <= 57) {
        (Seq::empty(), s)
    } else {
        let p = lex_digits(s.skip(1));
        (seq![s[0]] + p.0, p.1)
    }
}

/// The digit lexer only splits its input.
proof fn lemma_lex_digits_len(s: Seq<char>)
    ensures
        lex_digits(s).0.len() + lex_digits(s).1.len() == s.len(),
    decreases s.len(),
{
    if s.len() > 0 && 48 <= s[0] as u32 && s[0] as u32 <= 57 {
        lemma_lex_digits_len(s.skip(1));
    }
}

/// On a digit run followed by a non-digit continuation, the digit lexer
/// splits exactly at the boundary.
proof fn lemma_lex_digits_exact(d: Seq<char>, rest: Seq<char>)
    requires
        forall|i: int| 0 <= i < d.len() ==> 48 <= (#[trigger] d[i]) as u32 <= 57,
        rest.len() > 0 ==> !(48 <= rest[0] as u32 && rest[0] as u32 <= 57),
    ensures
        lex_digits(d + rest) == (d, rest),
    decreases d.len(),
{
    if d.len() == 0 {
        assert(d + rest =~= rest);
    } else {
        lemma_lex_digits_exact(d.skip(1), rest);
        assert((d + rest)[0] == d[0]);
        assert((d + rest).skip(1) =~= d.skip(1) + rest);
        assert(seq![d[0]] + d.skip(1) =~= d);
    }
}

/// Parses a signed integer: an optional minus sign and a nonempty digit run.
pub open spec fn parse_int_text(s: Seq<char>) -> Option<(int, Seq<char>)> {
    if s.len() > 0 && s[0] == '-' {
        let p = lex_digits(s.skip(1));
        if p.0.len() == 0 {
            Option::None
        } else {
            Option::Some((-digits_val(p.0), p.1))
        }
    } else {
        let p = lex_digits(s);
        if p.0.len() == 0 {
            Option::None
        } else {
            Option::Some((digits_val(p.0), p.1))
        }
    }
}

/// A parsed integer consumed at least one character.
proof fn lemma_parse_int_len(s: Seq<char>)
    ensures
        parse_int_text(s) matches Option::Some(p) ==> p.1.len() < s.len(),
{
    lemma_lex_digits_len(s);
    if s.len() > 0 && s[0] == '-' {
        lemma_lex_digits_len(s.skip(1));
    }
}

/// The signed decimal encoding round-trips through the integer parser, for
/// any non-digit continuation.
proof fn lemma_parse_int_exact(i: int, rest: Seq<char>)
    requires
        rest.len() > 0 ==> !(48 <= rest[0] as u32 && rest[0] as u32 <= 57),
    ensures
        parse_int_text(dec_int(i) + rest) == Option::Some((i, rest)),
{
    if i >= 0 {
        lemma_dec_nat_value(i as nat);
        lemma_lex_digits_exact(dec_nat(i as nat), rest);
        assert((dec_nat(i as nat) + rest)[0] == dec_nat(i as nat)[0]);
    } else {
        lemma_dec_nat_value((-i) as nat);
        lemma_lex_digits_exact(dec_nat((-i) as nat), rest);
        let whole = dec_int(i) + rest;
        assert(whole[0] == '-');
        assert(whole.skip(1) =~= dec_nat((-i) as nat) + rest);
    }
}

/// Parses one value: a quoted string or a signed integer.
pub open spec fn parse_value_text(s: Seq<char>) -> Option<(FieldV, Seq<char>)> {
    if s.len() > 0 && s[0] == '"' {
        match lex_str_body(s.skip(1)) {
            Option::None => Option::None,
            Option::Some(p) => Option::Some((FieldV::S(p.0), p.1)),
        }
    } else {
        match parse_int_text(s) {
            Option::None => Option::None,
            Option::Some(p) => Option::Some((FieldV::N(p.0), p.1)),
        }
    }
}

/// A parsed value consumed at least one character.
proof fn lemma_parse_value_len(s: Seq<char>)
    ensures
        parse_value_text(s) matches Option::Some(p) ==> p.1.len() < s.len(),
{
    if s.len() > 0 && s[0] == '"' {
        lemma_lex_str_body_len(s.skip(1));
    } else {
        lemma_parse_int_len(s);
    }
}

/// Any value text round-trips through the value parser, for any non-digit
/// continuation.
proof fn lemma_parse_value_exact(v: FieldV, rest: Seq<char>)
    requires
        rest.len() > 0 ==> !(48 <= rest[0] as u32 && rest[0] as u32 <= 57),
    ensures
        parse_value_text(value_text(v) + rest) == Option::Some((v, rest)),
{
    let whole = value_text(v) + rest;
    match v {
        FieldV::N(i) => {
            lemma_parse_int_exact(i, rest);
            if i >= 0 {
                lemma_dec_nat_value(i as nat);
                assert(whole[0] == dec_int(i)[0]);
                assert(48 <= whole[0] as u32 <= 57);
            } else {
                assert(whole[0] == '-');
            }
            assert(whole[0] != '"');
        },
        FieldV::S(t) => {
            assert(whole[0] == '"');
            assert(whole.skip(1) =~= escape_str(t) + seq!['"'] + rest);
            lemma_lex_escaped(t, rest);
        },
    }
}

/// Parses one `"key":value` member.
pub open spec fn parse_entry_text(s: Seq<char>) -> Option<((Seq<char>, FieldV), Seq<char>)> {
    if s.len() > 0 && s[0] == '"' {
        match lex_str_body(s.skip(1)) {
            Option::None => Option::None,
            Option::Some(kp) => if kp.1.len() > 0 && kp.1[0] == ':' {
                match parse_value_text(kp.1.skip(1)) {
                    Option::None => Option::None,
                    Option::Some(vp) => Option::Some(((kp.0, vp.0), vp.1)),
                }
            } else {
                Option::None
            },
        }
    } else {
        Option::None
    }
}

/// A parsed member consumed at least one character.
proof fn lemma_parse_entry_len(s: Seq<char>)
    ensures
        parse_entry_text(s) matches Option::Some(p) ==> p.1.len() < s.len(),
{
    if s.len() > 0 && s[0] == '"' {
        lemma_lex_str_body_len(s.skip(1));
        match lex_str_body(s.skip(1)) {
            Option::None => {},
            Option::Some(kp) => {
                if kp.1.len() > 0 && kp.1[0] == ':' {
                    lemma_parse_value_len(kp.1.skip(1));
                }
            },
        }
    }
}

/// Any member text round-trips through the member parser, for any non-digit
/// continuation.
proof fn lemma_parse_entry_exact(k: Seq<char>, v: FieldV, rest: Seq<char>)
    requires
        rest.len() > 0 ==> !(48 <= rest[0] as u32 && rest[0] as u32 <= 57),
    ensures
        parse_entry_text(entry_text(k, v) + rest) == Option::Some(((k, v), rest)),
{
    let whole = entry_text(k, v) + rest;
    let after_key = seq![':'] + value_text(v) + rest;
    assert(whole[0] == '"');
    assert(whole.skip(1) =~= escape_str(k) + seq!['"'] + after_key);
    lemma_lex_escaped(k, after_key);
    assert(after_key[0] == ':');
    assert(after_key.skip(1) =~= value_text(v) + rest);
    lemma_parse_value_exact(v, rest);
}

/// Parses a nonempty comma-separated member list.
pub open spec fn parse_members(s: Seq<char>) -> Option<(Seq<(Seq<char>, FieldV)>, Seq<char>)>
    decreases s.len(),
    via parse_members_dec
{
    match parse_entry_text(s) {
        Option::None => Option::None,
        Option::Some(ep) => if ep.1.len() > 0 && ep.1[0] == ',' {
            match parse_members(ep.1.skip(1)) {
                Option::None => Option::None,
                Option::Some(mp) => Option::Some((seq![ep.0] + mp.0, mp.1)),
            }
        } else {
            Option::Some((seq![ep.0], ep.1))
        },
    }
}

#[via_fn]
proof fn parse_members_dec(s: Seq<char>) {
    lemma_parse_entry_len(s);
}

/// The member list can also be read off from the front, one member and one
/// comma at a time.
proof fn lemma_body_text_first(s: Seq<(Seq<char>, FieldV)>)
    requires
        s.len() > 0,
    ensures
        body_text(s) == entry_text(s[0].0, s[0].1) + (if s.len() == 1 {
            Seq::<char>::empty()
        } else {
            seq![','] + body_text(s.skip(1))
        }),
    decreases s.len(),
{
    if s.len() == 1 {
        assert(body_text(s) =~= entry_text(s[0].0, s[0].1) + Seq::<char>::empty());
    } else {
        let bl = s.drop_last();
        lemma_body_text_first(bl);
        assert(bl[0] == s[0]);
        if s.len() == 2 {
            assert(s.skip(1) =~= seq![s.last()]);
            assert(body_text(s.skip(1)) == entry_text(s.last().0, s.last().1));
            assert(entry_text(s[0].0, s[0].1) + (seq![','] + body_text(s.skip(1))) =~= body_text(
                bl,
            ) + seq![','] + entry_text(s.last().0, s.last().1));
        } else {
            assert(s.skip(1).drop_last() =~= bl.skip(1));
            assert(s.skip(1).last() == s.last());
            assert(s.skip(1)[0] == s[1]);
            assert(bl.skip(1)[0] == s[1]);
            assert(body_text(s.skip(1)) == body_text(bl.skip(1)) + seq![','] + entry_text(
                s.last().0,
                s.last().1,
            ));
            assert(entry_text(s[0].0, s[0].1) + (seq![','] + body_text(s.skip(1))) =~= (entry_text(
                bl[0].0,
                bl[0].1,
            ) + (seq![','] + body_text(bl.skip(1)))) + seq![','] + entry_text(
                s.last().0,
                s.last().1,
            ));
        }
    }
}

/// The text of a nonempty member list round-trips through the member-list
/// parser, for any continuation that starts with neither a digit nor a
/// comma.
proof fn lemma_parse_members_exact(entries: Seq<(Seq<char>, FieldV)>, rest: Seq<char>)
    requires
        entries.len() > 0,
        rest.len() > 0,
        !(48 <= rest[0] as u32 && rest[0] as u32 <= 57),
        rest[0] != ',',
    ensures
        parse_members(body_text(entries) + rest) == Option::Some((entries, rest)),
    decreases entries.len(),
{
    lemma_body_text_first(entries);
    let e0 = entries[0];
    if entries.len() == 1 {
        assert(body_text(entries) + rest =~= entry_text(e0.0, e0.1) + rest);
        lemma_parse_entry_exact(e0.0, e0.1, rest);
        assert((e0.0, e0.1) == e0);
        assert(seq![e0] =~= entries);
    } else {
        let tail = seq![','] + body_text(entries.skip(1)) + rest;
        assert(body_text(entries) + rest =~= entry_text(e0.0, e0.1) + tail);
        assert(tail[0] == ',');
        lemma_parse_entry_exact(e0.0, e0.1, tail);
        assert((e0.0, e0.1) == e0);
        assert(tail.skip(1) =~= body_text(entries.skip(1)) + rest);
        lemma_parse_members_exact(entries.skip(1), rest);
        assert(seq![e0] + entries.skip(1) =~= entries);
    }
}

/// Parses the full JSON object text that the encoder emits; the entry
/// sequence it denotes.
pub open spec fn parse_object_text(s: Seq<char>) -> Option<Seq<(Seq<char>, FieldV)>> {
    if s.len() >= 2 && s[0] == '{' {
        if s.len() == 2 && s[1] == '}' {
            Option::Some(Seq::empty())
        } else {
            match parse_members(s.skip(1)) {
                Option::None => Option::None,
                Option::Some(mp) => if mp.1 == seq!['}'] {
                    Option::Some(mp.0)
                } else {
                    Option::None
                },
            }
        }
    } else {
        Option::None
    }
}

/// Round-trip law: the JSON object text of any entry sequence is parseable
/// and decodes to exactly that sequence — so the decoded mapping of every
/// encoded field set is the mapping that produced it.
pub proof fn lemma_json_round_trip(entries: Seq<(Seq<char>, FieldV)>)
    ensures
        parse_object_text(json_of(entries)) == Option::Some(entries),
        map_of(parse_object_text(json_of(entries)).unwrap()) == map_of(entries),
{
    let whole = json_of(entries);
    if entries.len() == 0 {
        assert(body_text(entries) =~= Seq::<char>::empty());
        assert(whole =~= seq!['{', '}']);
        assert(whole.len() == 2 && whole[0] == '{' && whole[1] == '}');
    } else {
        let rest = seq!['}'];
        lemma_body_text_first(entries);
        assert(body_text(entries).len() > 0);
        assert(whole[0] == '{');
        assert(whole.len() > 2);
        assert(whole.skip(1) =~= body_text(entries) + rest);
        lemma_parse_members_exact(entries, rest);
    }
}

/// The lower-case hexadecimal digit character for `n`.
fn hex_char(n: u8) -> (r: char)
    requires
        n < 16,
    ensures
        r == hex_digit(n as int),
{
    if n < 10 {
        (48 + n) as char
    } else {
        (87 + n) as char
    }
}

/// Appends the JSON escape of one character.
fn push_escaped(out: &mut Vec<char>, c: char)
    ensures
        final(out)@ == old(out)@ + escape_char(c),
{
    if c == '"' {
        out.push('\\');
        out.push('"');
        proof {
            assert(out@ =~= old(out)@ + escape_char(c));
        }
    } else if c == '\\' {
        out.push('\\');
        out.push('\\');
        proof {
            assert(out@ =~= old(out)@ + escape_char(c));
        }
    } else if (c as u32) < 32 {
        let n: u32 = c as u32;
        out.push('\\');
        out.push('u');
        out.push('0');
        out.push('0');
        out.push(hex_char((n / 16) as u8));
        out.push(hex_char((n % 16) as u8));
        proof {
            assert(out@ =~= old(out)@ + escape_char(c));
        }
    } else {
        out.push(c);
        proof {
            assert(out@ =~= old(out)@ + escape_char(c));
        }
    }
}

/// Appends the JSON escape of every character of `s`.
fn push_escaped_str(out: &mut Vec<char>, s: &str)
    ensures
        final(out)@ == old(out)@ + escape_str(s@),
{
    let n = s.unicode_len();
    let mut i: usize = 0;
    proof {
        assert(s@.take(0) =~= Seq::<char>::empty());
        assert(out@ =~= old(out)@ + escape_str(s@.take(0)));
    }
    while i < n
        invariant
            n as nat == s@.len(),
            i <= n,
            out@ == old(out)@ + escape_str(s@.take(i as int)),
        decreases n - i,
    {
        let c = s.get_char(i);
        push_escaped(out, c);
        proof {
            assert(s@.take(i as int + 1).drop_last() =~= s@.take(i as int));
            assert(s@.take(i as int + 1).last() == s@[i as int]);
            assert(out@ =~= old(out)@ + escape_str(s@.take(i as int + 1)));
        }
        i += 1;
    }
    proof {
        assert(s@.take(n as int) =~= s@);
    }
}

/// Appends the decimal rendering of `m`.
fn push_dec_u64(out: &mut Vec<char>, m: u64)
    ensures
        final(out)@ == old(out)@ + dec_nat(m as nat),
{
    let mut digits: Vec<char> = Vec::new();
    let mut x: u64 = m;
    if x == 0 {
        digits.push('0');
        proof {
            assert(dec_nat(0) =~= seq![digit10(0)]);
            assert(digits@ =~= dec_nat(m as nat));
        }
    }
    while x > 0
        invariant
            x > 0 ==> dec_nat(m as nat) == dec_nat(x as nat) + digits@,
            x == 0 ==> dec_nat(m as nat) == digits@,
        decreases x,
    {
        let d: u8 = (x % 10) as u8;
        let ghost digits_pre = digits@;
        digits.insert(0, (48 + d) as char);
        proof {
            let dg = digit10((x % 10) as int);
            assert(digits@ =~= seq![dg] + digits_pre);
            if x / 10 > 0 {
                assert(dec_nat(x as nat) == dec_nat((x / 10) as nat).push(dg));
                assert(dec_nat(x as nat) + digits_pre =~= dec_nat((x / 10) as nat) + digits@);
            } else {
                assert(dec_nat(x as nat) =~= seq![dg]);
                assert(dec_nat(x as nat) + digits_pre =~= digits@);
            }
        }
        x = x / 10;
    }
    let dn = digits.len();
    let mut j: usize = 0;
    proof {
        assert(out@ =~= old(out)@ + digits@.take(0));
    }
    while j < dn
        invariant
            dn == digits@.len(),
            j <= dn,
            dec_nat(m as nat) == digits@,
            out@ == old(out)@ + digits@.take(j as int),
        decreases dn - j,
    {
        out.push(digits[j]);
        proof {
            assert(digits@.take(j as int + 1) =~= digits@.take(j as int).push(digits@[j as int]));
            assert(out@ =~= old(out)@ + digits@.take(j as int + 1));
        }
        j += 1;
    }
    proof {
        assert(digits@.take(dn as int) =~= digits@);
    }
}

/// Appends the decimal rendering of `i`, sign included.
fn push_dec_i64(out: &mut Vec<char>, i: i64)
    ensures
        final(out)@ == old(out)@ + dec_int(i as int),
{
    if i < 0 {
        out.push('-');
        let m: u64 = ((-(i + 1)) as u64) + 1;
        proof {
            assert(m as nat == (-(i as int)) as nat);
        }
        push_dec_u64(out, m);
        proof {
            assert(out@ =~= old(out)@ + dec_int(i as int));
        }
    } else {
        push_dec_u64(out, i as u64);
    }
}

/// Relies on `String: FromIterator<char>`: collecting characters yields the
/// string of exactly those characters, in order.
#[verifier::external_body]
fn chars_to_string(v: &Vec<char>) -> (r: String)
    ensures
        r@ == v@,
{
    v.iter().copied().collect()
}

/// Serializes the mapping to one compact JSON object; the result is exactly
/// the text that `json_of` gives for the entry sequence.
pub fn encode_fields(f: &RequiredFields) -> (r: String)
    ensures
        r@ == json_of(f.entries_v()),
{
    let mut out: Vec<char> = Vec::new();
    out.push('{');
    let n = f.entries.len();
    let mut i: usize = 0;
    proof {
        assert(kv_seq(f.entries@.take(0)) =~= Seq::<(Seq<char>, FieldV)>::empty());
        assert(out@ =~= seq!['{'] + body_text(kv_seq(f.entries@.take(0))));
    }
    while i < n
        invariant
            n == f.entries@.len(),
            i <= n,
            out@ == seq!['{'] + body_text(kv_seq(f.entries@.take(i as int))),
        decreases n - i,
    {
        if i > 0 {
            out.push(',');
        }
        let ghost pre = kv_seq(f.entries@.take(i as int));
        let ghost cur = (f.entries@[i as int].0@, f.entries@[i as int].1@);
        out.push('"');
        push_escaped_str(&mut out, f.entries[i].0.as_str());
        out.push('"');
        out.push(':');
        match &f.entries[i].1 {
            FieldValue::Number(x) => push_dec_i64(&mut out, *x),
            FieldValue::String(s) => {
                out.push('"');
                push_escaped_str(&mut out, s.as_str());
                out.push('"');
            },
        }
        proof {
            let next = kv_seq(f.entries@.take(i as int + 1));
            assert(next.drop_last() =~= pre);
            assert(next.last() == cur);
            if i == 0 {
                assert(body_text(next) == entry_text(cur.0, cur.1));
            } else {
                assert(body_text(next) == body_text(pre) + seq![','] + entry_text(cur.0, cur.1));
            }
            assert(out@ =~= seq!['{'] + body_text(next));
        }
        i += 1;
    }
    proof {
        assert(f.entries@.take(n as int) =~= f.entries@);
    }
    out.push('}');
    proof {
        assert(out@ =~= json_of(kv_seq(f.entries@)));
    }
    chars_to_string(&out)
}

} // verus!
