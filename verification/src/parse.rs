//! Reading the emitted wire format back: a specification-level parser
//! for the JSON this crate writes, and proofs that parsing inverts
//! serialization — the emitted stream loses nothing.

use vstd::prelude::*;

use crate::json::{
    align_json, bj_borders, bj_colors, bj_identity, bj_layout, bj_state, bj_text, block_json,
    blocks_json, bool_chars, dec_digits, esc_char, hex_digit, json_escaped, json_string,
    markup_json, min_width_json, opt_align_field, opt_str_field, opt_u32_field, status_json,
    tail_blocks_json,
};
use crate::protocol::{Align, BlockV, Markup, MinWidthV};

verus! {

/// The decimal value of a digit character.
pub open spec fn digit_val(c: char) -> nat {
    if c == '0' {
        0
    } else if c == '1' {
        1
    } else if c == '2' {
        2
    } else if c == '3' {
        3
    } else if c == '4' {
        4
    } else if c == '5' {
        5
    } else if c == '6' {
        6
    } else if c == '7' {
        7
    } else if c == '8' {
        8
    } else {
        9
    }
}

/// Whether a character is a decimal digit.
pub open spec fn is_digit(c: char) -> bool {
    c == '0' || c == '1' || c == '2' || c == '3' || c == '4' || c == '5' || c == '6' || c == '7'
        || c == '8' || c == '9'
}

/// The value of a lowercase hexadecimal digit character.
pub open spec fn hex_val(c: char) -> nat {
    if is_digit(c) {
        digit_val(c)
    } else if c == 'a' {
        10
    } else if c == 'b' {
        11
    } else if c == 'c' {
        12
    } else if c == 'd' {
        13
    } else if c == 'e' {
        14
    } else {
        15
    }
}

/// Whether a character is a lowercase hexadecimal digit.
pub open spec fn is_hex(c: char) -> bool {
    is_digit(c) || c == 'a' || c == 'b' || c == 'c' || c == 'd' || c == 'e' || c == 'f'
}

/// The character a short escape stands for, if the letter is one.
pub open spec fn short_escape_char(c: char) -> Option<char> {
    if c == '"' {
        Option::Some('"')
    } else if c == '\\' {
        Option::Some('\\')
    } else if c == 'b' {
        Option::Some('\u{8}')
    } else if c == 't' {
        Option::Some('\t')
    } else if c == 'n' {
        Option::Some('\n')
    } else if c == 'f' {
        Option::Some('\u{c}')
    } else if c == 'r' {
        Option::Some('\r')
    } else {
        Option::None
    }
}

/// Parse the body of a JSON string literal up to and including its
/// closing quote: the decoded content and the remaining input.
pub open spec fn parse_string_body(s: Seq<char>) -> Option<(Seq<char>, Seq<char>)>
    decreases s.len(),
{
    if s.len() == 0 {
        Option::None
    } else if s[0] == '"' {
        Option::Some((Seq::empty(), s.skip(1)))
    } else if s[0] == '\\' {
        if s.len() < 2 {
            Option::None
        } else if s[1] == 'u' {
            if s.len() < 6 {
                Option::None
            } else if s[2] == '0' && s[3] == '0' && is_hex(s[4]) && is_hex(s[5]) {
                match parse_string_body(s.skip(6)) {
                    Option::Some((t, r)) => Option::Some(
                        (seq![((hex_val(s[4]) * 16 + hex_val(s[5])) as char)] + t, r),
                    ),
                    Option::None => Option::None,
                }
            } else {
                Option::None
            }
        } else {
            match short_escape_char(s[1]) {
                Option::Some(c) => match parse_string_body(s.skip(2)) {
                    Option::Some((t, r)) => Option::Some((seq![c] + t, r)),
                    Option::None => Option::None,
                },
                Option::None => Option::None,
            }
        }
    } else {
        match parse_string_body(s.skip(1)) {
            Option::Some((t, r)) => Option::Some((seq![s[0]] + t, r)),
            Option::None => Option::None,
        }
    }
}

/// Parse a whole JSON string literal.
pub open spec fn parse_json_string(s: Seq<char>) -> Option<(Seq<char>, Seq<char>)> {
    if s.len() > 0 && s[0] == '"' {
        parse_string_body(s.skip(1))
    } else {
        Option::None
    }
}

/// Parsing inverts escaping: the body parser decodes an escaped text
/// followed by the closing quote back to the text itself.
pub proof fn lemma_parse_string_body_round(x: Seq<char>, rest: Seq<char>)
    ensures
        parse_string_body(json_escaped(x) + ("\""@ + rest)) == Option::Some((x, rest)),
    decreases x.len(),
{
    reveal_strlit("\"");
    let tail = "\""@ + rest;
    if x.len() == 0 {
        assert(json_escaped(x) + tail =~= tail);
        assert(tail[0] == '"');
        assert(tail.skip(1) =~= rest);
        assert(x =~= Seq::<char>::empty());
    } else {
        let c = x[0];
        let x2 = x.skip(1);
        let s = json_escaped(x) + tail;
        let s2 = json_escaped(x2) + tail;
        assert(json_escaped(x) == esc_char(c) + json_escaped(x2));
        lemma_parse_string_body_round(x2, rest);
        if c == '"' {
            reveal_strlit("\\\"");
            assert(s =~= "\\\""@ + s2);
            assert(s[0] == '\\' && s[1] == '"');
            assert(s.skip(2) =~= s2);
            assert(seq!['"'] + x2 =~= x);
        } else if c == '\\' {
            reveal_strlit("\\\\");
            assert(s =~= "\\\\"@ + s2);
            assert(s[0] == '\\' && s[1] == '\\');
            assert(s.skip(2) =~= s2);
            assert(seq!['\\'] + x2 =~= x);
        } else if c as u32 >= 0x20 {
            assert(s =~= seq![c] + s2);
            assert(s[0] == c);
            assert(s.skip(1) =~= s2);
            assert(seq![c] + x2 =~= x);
        } else if c == '\u{8}' {
            reveal_strlit("\\b");
            assert(s =~= "\\b"@ + s2);
            assert(s[0] == '\\' && s[1] == 'b');
            assert(s.skip(2) =~= s2);
            assert(seq!['\u{8}'] + x2 =~= x);
        } else if c == '\t' {
            reveal_strlit("\\t");
            assert(s =~= "\\t"@ + s2);
            assert(s[0] == '\\' && s[1] == 't');
            assert(s.skip(2) =~= s2);
            assert(seq!['\t'] + x2 =~= x);
        } else if c == '\n' {
            reveal_strlit("\\n");
            assert(s =~= "\\n"@ + s2);
            assert(s[0] == '\\' && s[1] == 'n');
            assert(s.skip(2) =~= s2);
            assert(seq!['\n'] + x2 =~= x);
        } else if c == '\u{c}' {
            reveal_strlit("\\f");
            assert(s =~= "\\f"@ + s2);
            assert(s[0] == '\\' && s[1] == 'f');
            assert(s.skip(2) =~= s2);
            assert(seq!['\u{c}'] + x2 =~= x);
        } else if c == '\r' {
            reveal_strlit("\\r");
            assert(s =~= "\\r"@ + s2);
            assert(s[0] == '\\' && s[1] == 'r');
            assert(s.skip(2) =~= s2);
            assert(seq!['\r'] + x2 =~= x);
        } else {
            reveal_strlit("\\u00");
            let hi = (c as u32 / 16) as nat;
            let lo = (c as u32 % 16) as nat;
            assert(esc_char(c) =~= "\\u00"@ + seq![hex_digit(hi), hex_digit(lo)]);
            assert(s =~= "\\u00"@ + (seq![hex_digit(hi), hex_digit(lo)] + s2));
            assert(s[0] == '\\' && s[1] == 'u' && s[2] == '0' && s[3] == '0');
            assert(s[4] == hex_digit(hi) && s[5] == hex_digit(lo));
            assert(hi < 2 && lo < 16);
            assert(is_hex(hex_digit(hi)) && hex_val(hex_digit(hi)) == hi);
            assert(is_hex(hex_digit(lo)) && hex_val(hex_digit(lo)) == lo);
            assert(s.skip(6) =~= s2);
            assert(hex_val(s[4]) * 16 + hex_val(s[5]) == c as u32);
            assert(((hex_val(s[4]) * 16 + hex_val(s[5])) as char) == c) by {
                vstd::utf8::char_u32_cast(c, c as u32);
            }
            assert(seq![c] + x2 =~= x);
        }
    }
}

/// Parsing inverts string serialization.
pub proof fn lemma_parse_json_string_round(x: Seq<char>, rest: Seq<char>)
    ensures
        parse_json_string(json_string(x) + rest) == Option::Some((x, rest)),
{
    reveal_strlit("\"");
    let s = json_string(x) + rest;
    assert(s[0] == '"');
    assert(s.skip(1) =~= json_escaped(x) + ("\""@ + rest));
    lemma_parse_string_body_round(x, rest);
}

/// The length of the longest decimal-digit prefix.
pub open spec fn digit_prefix_len(s: Seq<char>) -> int
    decreases s.len(),
{
    if s.len() == 0 || !is_digit(s[0]) {
        0
    } else {
        1 + digit_prefix_len(s.skip(1))
    }
}

/// The number a digit sequence denotes, most significant digit first.
pub open spec fn digits_value(ds: Seq<char>) -> nat
    decreases ds.len(),
{
    if ds.len() == 0 {
        0
    } else {
        digits_value(ds.drop_last()) * 10 + digit_val(ds.last())
    }
}

/// Parse a decimal natural number: its longest digit prefix.
pub open spec fn parse_nat(s: Seq<char>) -> Option<(nat, Seq<char>)> {
    let k = digit_prefix_len(s);
    if k == 0 {
        Option::None
    } else {
        Option::Some((digits_value(s.take(k)), s.skip(k)))
    }
}

/// Parse a number that must fit a block's numeric fields.
pub open spec fn parse_u32(s: Seq<char>) -> Option<(u32, Seq<char>)> {
    match parse_nat(s) {
        Option::Some((v, r)) => if v <= u32::MAX {
            Option::Some((v as u32, r))
        } else {
            Option::None
        },
        Option::None => Option::None,
    }
}

/// Parse a JSON boolean.
pub open spec fn parse_bool(s: Seq<char>) -> Option<(bool, Seq<char>)> {
    if s.len() >= 4 && s.take(4) == "true"@ {
        Option::Some((true, s.skip(4)))
    } else if s.len() >= 5 && s.take(5) == "false"@ {
        Option::Some((false, s.skip(5)))
    } else {
        Option::None
    }
}

/// Consume an expected literal prefix.
pub open spec fn expect(s: Seq<char>, lit: Seq<char>) -> Option<Seq<char>> {
    if lit.len() <= s.len() && s.take(lit.len() as int) == lit {
        Option::Some(s.skip(lit.len() as int))
    } else {
        Option::None
    }
}

/// A literal prefix is consumed exactly.
pub proof fn lemma_expect_self(lit: Seq<char>, tail: Seq<char>)
    ensures
        expect(lit + tail, lit) == Option::Some(tail),
{
    let s = lit + tail;
    assert(s.take(lit.len() as int) =~= lit);
    assert(s.skip(lit.len() as int) =~= tail);
}

/// A literal that differs from the input at one position is not a
/// prefix of it.
pub proof fn lemma_expect_mismatch(s: Seq<char>, lit: Seq<char>, i: int)
    requires
        0 <= i < lit.len(),
        i < s.len(),
        s[i] != lit[i],
    ensures
        expect(s, lit) is None,
{
    if lit.len() <= s.len() && s.take(lit.len() as int) == lit {
        assert(s.take(lit.len() as int)[i] == s[i]);
    }
}

/// Every character of a rendered number is a digit.
pub proof fn lemma_dec_digits_are_digits(n: nat)
    ensures
        dec_digits(n).len() >= 1,
        forall|i: int| 0 <= i < dec_digits(n).len() ==> is_digit(#[trigger] dec_digits(n)[i]),
    decreases n,
{
    if n >= 10 {
        lemma_dec_digits_are_digits(n / 10);
        assert forall|i: int| 0 <= i < dec_digits(n).len() implies is_digit(
            #[trigger] dec_digits(n)[i],
        ) by {
            if i < dec_digits(n / 10).len() {
                assert(dec_digits(n)[i] == dec_digits(n / 10)[i]);
            } else {
                assert(dec_digits(n)[i] == hex_digit(n % 10));
            }
        }
    }
}

/// The digit prefix of digits followed by a non-digit is the digits.
pub proof fn lemma_digit_prefix_of_digits(ds: Seq<char>, rest: Seq<char>)
    requires
        forall|i: int| 0 <= i < ds.len() ==> is_digit(#[trigger] ds[i]),
        rest.len() > 0,
        !is_digit(rest[0]),
    ensures
        digit_prefix_len(ds + rest) == ds.len(),
    decreases ds.len(),
{
    let s = ds + rest;
    if ds.len() == 0 {
        assert(s =~= rest);
    } else {
        assert(s[0] == ds[0]);
        assert(s.skip(1) =~= ds.skip(1) + rest);
        lemma_digit_prefix_of_digits(ds.skip(1), rest);
    }
}

/// Reading back the digits of a number gives the number.
pub proof fn lemma_digits_value_round(n: nat)
    ensures
        digits_value(dec_digits(n)) == n,
    decreases n,
{
    if n < 10 {
        assert(dec_digits(n) =~= seq![hex_digit(n)]);
        assert(dec_digits(n).drop_last() =~= Seq::<char>::empty());
        assert(digits_value(Seq::<char>::empty()) == 0);
        assert(dec_digits(n).last() == hex_digit(n));
        assert(digit_val(hex_digit(n)) == n);
    } else {
        lemma_digits_value_round(n / 10);
        assert(dec_digits(n).drop_last() =~= dec_digits(n / 10));
        assert(dec_digits(n).last() == hex_digit(n % 10));
        assert(digit_val(hex_digit(n % 10)) == n % 10);
        assert(digits_value(dec_digits(n)) == digits_value(dec_digits(n / 10)) * 10 + digit_val(
            dec_digits(n).last(),
        ));
        assert(n / 10 * 10 + n % 10 == n);
    }
}

/// Parsing inverts decimal serialization, for a stream continuing with
/// a non-digit.
pub proof fn lemma_parse_nat_round(n: nat, rest: Seq<char>)
    requires
        rest.len() > 0,
        !is_digit(rest[0]),
    ensures
        parse_nat(dec_digits(n) + rest) == Option::Some((n, rest)),
{
    let ds = dec_digits(n);
    let s = ds + rest;
    lemma_dec_digits_are_digits(n);
    lemma_digit_prefix_of_digits(ds, rest);
    assert(digit_prefix_len(s) == ds.len());
    assert(s.take(ds.len() as int) =~= ds);
    assert(s.skip(ds.len() as int) =~= rest);
    lemma_digits_value_round(n);
}

/// Parsing inverts decimal serialization of a 32-bit value.
pub proof fn lemma_parse_u32_round(n: u32, rest: Seq<char>)
    requires
        rest.len() > 0,
        !is_digit(rest[0]),
    ensures
        parse_u32(dec_digits(n as nat) + rest) == Option::Some((n, rest)),
{
    lemma_parse_nat_round(n as nat, rest);
}

/// Parsing inverts boolean serialization.
pub proof fn lemma_parse_bool_round(v: bool, rest: Seq<char>)
    ensures
        parse_bool(bool_chars(v) + rest) == Option::Some((v, rest)),
{
    reveal_strlit("true");
    reveal_strlit("false");
    let s = bool_chars(v) + rest;
    if v {
        assert(s.take(4) =~= "true"@);
        assert(s.skip(4) =~= rest);
    } else {
        assert(s[0] == 'f');
        if s.len() >= 4 && s.take(4) == "true"@ {
            assert(s.take(4)[0] == 'f');
        }
        assert(s.take(5) =~= "false"@);
        assert(s.skip(5) =~= rest);
    }
}

/// Parse an optional string-valued field: absent when the key does not
/// follow, malformed when the key follows without a string.
pub open spec fn parse_opt_str_field(s: Seq<char>, key: Seq<char>) -> Option<
    (Option<Seq<char>>, Seq<char>),
> {
    match expect(s, key) {
        Option::Some(s1) => match parse_json_string(s1) {
            Option::Some((v, r)) => Option::Some((Option::Some(v), r)),
            Option::None => Option::None,
        },
        Option::None => Option::Some((Option::None, s)),
    }
}

/// Parse an optional numeric field.
pub open spec fn parse_opt_u32_field(s: Seq<char>, key: Seq<char>) -> Option<
    (Option<u32>, Seq<char>),
> {
    match expect(s, key) {
        Option::Some(s1) => match parse_u32(s1) {
            Option::Some((v, r)) => Option::Some((Option::Some(v), r)),
            Option::None => Option::None,
        },
        Option::None => Option::Some((Option::None, s)),
    }
}

/// Parse an alignment value.
pub open spec fn parse_align_value(s: Seq<char>) -> Option<(Align, Seq<char>)> {
    match expect(s, "\"left\""@) {
        Option::Some(r) => Option::Some((Align::Left, r)),
        Option::None => match expect(s, "\"right\""@) {
            Option::Some(r) => Option::Some((Align::Right, r)),
            Option::None => match expect(s, "\"center\""@) {
                Option::Some(r) => Option::Some((Align::Center, r)),
                Option::None => Option::None,
            },
        },
    }
}

/// Parse a markup value.
pub open spec fn parse_markup_value(s: Seq<char>) -> Option<(Markup, Seq<char>)> {
    match expect(s, "\"pango\""@) {
        Option::Some(r) => Option::Some((Markup::Pango, r)),
        Option::None => match expect(s, "\"none\""@) {
            Option::Some(r) => Option::Some((Markup::Plain, r)),
            Option::None => Option::None,
        },
    }
}

/// Parse a minimum width value: a string or a pixel count.
pub open spec fn parse_min_width_value(s: Seq<char>) -> Option<(MinWidthV, Seq<char>)> {
    if s.len() > 0 && s[0] == '"' {
        match parse_json_string(s) {
            Option::Some((v, r)) => Option::Some((MinWidthV::WidthOf(v), r)),
            Option::None => Option::None,
        }
    } else {
        match parse_u32(s) {
            Option::Some((v, r)) => Option::Some((MinWidthV::Pixels(v), r)),
            Option::None => Option::None,
        }
    }
}

/// Parse the opening text fields of a block object.
pub open spec fn parse_bj_text(s: Seq<char>) -> Option<
    ((Seq<char>, Option<Seq<char>>), Seq<char>),
> {
    match expect(s, "{\"full_text\":"@) {
        Option::Some(s1) => match parse_json_string(s1) {
            Option::Some((ft, s2)) => match parse_opt_str_field(s2, ",\"short_text\":"@) {
                Option::Some((st, s3)) => Option::Some(((ft, st), s3)),
                Option::None => Option::None,
            },
            Option::None => Option::None,
        },
        Option::None => Option::None,
    }
}

/// Parse the optional color fields of a block object.
pub open spec fn parse_bj_colors(s: Seq<char>) -> Option<
    ((Option<Seq<char>>, Option<Seq<char>>, Option<Seq<char>>), Seq<char>),
> {
    match parse_opt_str_field(s, ",\"color\":"@) {
        Option::Some((c, s1)) => match parse_opt_str_field(s1, ",\"background\":"@) {
            Option::Some((bg, s2)) => match parse_opt_str_field(s2, ",\"border\":"@) {
                Option::Some((bd, s3)) => Option::Some(((c, bg, bd), s3)),
                Option::None => Option::None,
            },
            Option::None => Option::None,
        },
        Option::None => Option::None,
    }
}

/// Parse the optional border width fields of a block object.
pub open spec fn parse_bj_borders(s: Seq<char>) -> Option<
    ((Option<u32>, Option<u32>, Option<u32>, Option<u32>), Seq<char>),
> {
    match parse_opt_u32_field(s, ",\"border_top\":"@) {
        Option::Some((bt, s1)) => match parse_opt_u32_field(s1, ",\"border_bottom\":"@) {
            Option::Some((bb, s2)) => match parse_opt_u32_field(s2, ",\"border_left\":"@) {
                Option::Some((bl, s3)) => match parse_opt_u32_field(s3, ",\"border_right\":"@) {
                    Option::Some((br, s4)) => Option::Some(((bt, bb, bl, br), s4)),
                    Option::None => Option::None,
                },
                Option::None => Option::None,
            },
            Option::None => Option::None,
        },
        Option::None => Option::None,
    }
}

/// Parse the width and alignment fields of a block object.
pub open spec fn parse_bj_layout(s: Seq<char>) -> Option<
    ((MinWidthV, Option<Align>), Seq<char>),
> {
    match expect(s, ",\"min_width\":"@) {
        Option::Some(s1) => match parse_min_width_value(s1) {
            Option::Some((mw, s2)) => match expect(s2, ",\"align\":"@) {
                Option::Some(s3) => match parse_align_value(s3) {
                    Option::Some((a, s4)) => Option::Some(((mw, Option::Some(a)), s4)),
                    Option::None => Option::None,
                },
                Option::None => Option::Some(((mw, Option::None), s2)),
            },
            Option::None => Option::None,
        },
        Option::None => Option::None,
    }
}

/// Parse the identity fields of a block object.
pub open spec fn parse_bj_identity(s: Seq<char>) -> Option<((Seq<char>, Seq<char>), Seq<char>)> {
    match expect(s, ",\"name\":"@) {
        Option::Some(s1) => match parse_json_string(s1) {
            Option::Some((n, s2)) => match expect(s2, ",\"instance\":"@) {
                Option::Some(s3) => match parse_json_string(s3) {
                    Option::Some((i, s4)) => Option::Some(((n, i), s4)),
                    Option::None => Option::None,
                },
                Option::None => Option::None,
            },
            Option::None => Option::None,
        },
        Option::None => Option::None,
    }
}

/// Parse the closing fields of a block object, including its brace.
pub open spec fn parse_bj_state(s: Seq<char>) -> Option<
    ((bool, bool, Option<u32>, Markup), Seq<char>),
> {
    match expect(s, ",\"urgent\":"@) {
        Option::Some(s1) => match parse_bool(s1) {
            Option::Some((u, s2)) => match expect(s2, ",\"separator\":"@) {
                Option::Some(s3) => match parse_bool(s3) {
                    Option::Some((sep, s4)) => match parse_opt_u32_field(
                        s4,
                        ",\"separator_block_width\":"@,
                    ) {
                        Option::Some((sbw, s5)) => match expect(s5, ",\"markup\":"@) {
                            Option::Some(s6) => match parse_markup_value(s6) {
                                Option::Some((m, s7)) => match expect(s7, "}"@) {
                                    Option::Some(s8) => Option::Some(((u, sep, sbw, m), s8)),
                                    Option::None => Option::None,
                                },
                                Option::None => Option::None,
                            },
                            Option::None => Option::None,
                        },
                        Option::None => Option::None,
                    },
                    Option::None => Option::None,
                },
                Option::None => Option::None,
            },
            Option::None => Option::None,
        },
        Option::None => Option::None,
    }
}

/// Parse one block object.
pub open spec fn parse_block(s: Seq<char>) -> Option<(BlockV, Seq<char>)> {
    match parse_bj_text(s) {
        Option::Some(((full_text, short_text), s1)) => match parse_bj_colors(s1) {
            Option::Some(((color, background, border), s2)) => match parse_bj_borders(s2) {
                Option::Some(((bt, bb, bl, br), s3)) => match parse_bj_layout(s3) {
                    Option::Some(((min_width, align), s4)) => match parse_bj_identity(s4) {
                        Option::Some(((name, instance), s5)) => match parse_bj_state(s5) {
                            Option::Some(((urgent, separator, sbw, markup), s6)) => Option::Some(
                                (
                                    BlockV {
                                        full_text,
                                        short_text,
                                        color,
                                        background,
                                        border,
                                        border_top: bt,
                                        border_bottom: bb,
                                        border_left: bl,
                                        border_right: br,
                                        min_width,
                                        align,
                                        name,
                                        instance,
                                        urgent,
                                        separator,
                                        separator_block_width: sbw,
                                        markup,
                                    },
                                    s6,
                                ),
                            ),
                            Option::None => Option::None,
                        },
                        Option::None => Option::None,
                    },
                    Option::None => Option::None,
                },
                Option::None => Option::None,
            },
            Option::None => Option::None,
        },
        Option::None => Option::None,
    }
}

/// Parse the blocks after the first, up to the closing bracket.
pub open spec fn parse_blocks_more(s: Seq<char>, fuel: nat) -> Option<(Seq<BlockV>, Seq<char>)>
    decreases fuel,
{
    if s.len() > 0 && s[0] == ']' {
        Option::Some((Seq::empty(), s.skip(1)))
    } else if fuel == 0 {
        Option::None
    } else {
        match expect(s, ","@) {
            Option::Some(s1) => match parse_block(s1) {
                Option::Some((b, s2)) => match parse_blocks_more(s2, (fuel - 1) as nat) {
                    Option::Some((bs, r)) => Option::Some((seq![b] + bs, r)),
                    Option::None => Option::None,
                },
                Option::None => Option::None,
            },
            Option::None => Option::None,
        }
    }
}

/// Parse a whole snapshot array.
pub open spec fn parse_status_json(s: Seq<char>) -> Option<(Seq<BlockV>, Seq<char>)> {
    match expect(s, "["@) {
        Option::Some(s1) => {
            if s1.len() > 0 && s1[0] == ']' {
                Option::Some((Seq::empty(), s1.skip(1)))
            } else {
                match parse_block(s1) {
                    Option::Some((b, s2)) => match parse_blocks_more(s2, s2.len()) {
                        Option::Some((bs, r)) => Option::Some((seq![b] + bs, r)),
                        Option::None => Option::None,
                    },
                    Option::None => Option::None,
                }
            }
        },
        Option::None => Option::None,
    }
}

/// The stream at the `border_right` position: that field if set, then
/// the mandatory width field and everything after it (`lt`).
spec fn at_br(b: BlockV, lt: Seq<char>) -> Seq<char> {
    opt_u32_field(",\"border_right\":"@, b.border_right) + lt
}

/// The stream at the `border_left` position.
spec fn at_bl(b: BlockV, lt: Seq<char>) -> Seq<char> {
    opt_u32_field(",\"border_left\":"@, b.border_left) + at_br(b, lt)
}

/// The stream at the `border_bottom` position.
spec fn at_bb(b: BlockV, lt: Seq<char>) -> Seq<char> {
    opt_u32_field(",\"border_bottom\":"@, b.border_bottom) + at_bl(b, lt)
}

/// The stream at the `border_top` position.
spec fn at_bt(b: BlockV, lt: Seq<char>) -> Seq<char> {
    opt_u32_field(",\"border_top\":"@, b.border_top) + at_bb(b, lt)
}

/// The stream at the `border` position.
spec fn at_border(b: BlockV, lt: Seq<char>) -> Seq<char> {
    opt_str_field(",\"border\":"@, b.border) + at_bt(b, lt)
}

/// The stream at the `background` position.
spec fn at_bg(b: BlockV, lt: Seq<char>) -> Seq<char> {
    opt_str_field(",\"background\":"@, b.background) + at_border(b, lt)
}

/// The stream at the `color` position.
spec fn at_color(b: BlockV, lt: Seq<char>) -> Seq<char> {
    opt_str_field(",\"color\":"@, b.color) + at_bg(b, lt)
}

/// The stream at the `short_text` position.
spec fn at_short(b: BlockV, lt: Seq<char>) -> Seq<char> {
    opt_str_field(",\"short_text\":"@, b.short_text) + at_color(b, lt)
}

/// An optional string field parses back, wherever it stands: absent
/// exactly when its key does not open the rest of the stream.
proof fn lemma_opt_str_round(v: Option<Seq<char>>, key: Seq<char>, after: Seq<char>)
    requires
        v is None ==> expect(after, key) is None,
    ensures
        parse_opt_str_field(opt_str_field(key, v) + after, key) == Option::Some((v, after)),
{
    match v {
        Option::Some(x) => {
            assert(opt_str_field(key, v) + after =~= key + (json_string(x) + after));
            lemma_expect_self(key, json_string(x) + after);
            lemma_parse_json_string_round(x, after);
        },
        Option::None => {
            assert(opt_str_field(key, v) + after =~= after);
        },
    }
}

/// An optional numeric field parses back, for a stream continuing with
/// a non-digit.
proof fn lemma_opt_u32_round(v: Option<u32>, key: Seq<char>, after: Seq<char>)
    requires
        v is None ==> expect(after, key) is None,
        after.len() > 0,
        !is_digit(after[0]),
    ensures
        parse_opt_u32_field(opt_u32_field(key, v) + after, key) == Option::Some((v, after)),
{
    match v {
        Option::Some(n) => {
            assert(opt_u32_field(key, v) + after =~= key + (dec_digits(n as nat) + after));
            lemma_expect_self(key, dec_digits(n as nat) + after);
            lemma_parse_u32_round(n, after);
        },
        Option::None => {
            assert(opt_u32_field(key, v) + after =~= after);
        },
    }
}

/// Every position stream of the optional fields starts with a comma,
/// as every field key and the mandatory width key do.
proof fn lemma_at_heads(b: BlockV, lt: Seq<char>)
    requires
        lt.len() > 2,
        lt[0] == ',',
    ensures
        at_br(b, lt).len() > 2 && at_br(b, lt)[0] == ',',
        at_bl(b, lt).len() > 2 && at_bl(b, lt)[0] == ',',
        at_bb(b, lt).len() > 2 && at_bb(b, lt)[0] == ',',
        at_bt(b, lt).len() > 2 && at_bt(b, lt)[0] == ',',
        at_border(b, lt).len() > 2 && at_border(b, lt)[0] == ',',
        at_bg(b, lt).len() > 2 && at_bg(b, lt)[0] == ',',
        at_color(b, lt).len() > 2 && at_color(b, lt)[0] == ',',
        at_short(b, lt).len() > 2 && at_short(b, lt)[0] == ',',
{
    reveal_strlit(",\"border_right\":");
    reveal_strlit(",\"border_left\":");
    reveal_strlit(",\"border_bottom\":");
    reveal_strlit(",\"border_top\":");
    reveal_strlit(",\"border\":");
    reveal_strlit(",\"background\":");
    reveal_strlit(",\"color\":");
    reveal_strlit(",\"short_text\":");
    if b.border_right is None {
        assert(at_br(b, lt) =~= lt);
    }
    if b.border_left is None {
        assert(at_bl(b, lt) =~= at_br(b, lt));
    }
    if b.border_bottom is None {
        assert(at_bb(b, lt) =~= at_bl(b, lt));
    }
    if b.border_top is None {
        assert(at_bt(b, lt) =~= at_bb(b, lt));
    }
    if b.border is None {
        assert(at_border(b, lt) =~= at_bt(b, lt));
    }
    if b.background is None {
        assert(at_bg(b, lt) =~= at_border(b, lt));
    }
    if b.color is None {
        assert(at_color(b, lt) =~= at_bg(b, lt));
    }
    if b.short_text is None {
        assert(at_short(b, lt) =~= at_color(b, lt));
    }
}

/// Where an optional field is unset, its key does not open the stream
/// at its position: what stands there is some later field's key, or the
/// mandatory width key, and each differs from the unset key at a known
/// character.
#[verifier::rlimit(100)]
proof fn lemma_keys_absent(b: BlockV, lt: Seq<char>)
    requires
        lt.len() > 2,
        lt[0] == ',',
        lt[2] == 'm',
    ensures
        b.short_text is None ==> expect(at_color(b, lt), ",\"short_text\":"@) is None,
        b.color is None ==> expect(at_bg(b, lt), ",\"color\":"@) is None,
        b.background is None ==> expect(at_border(b, lt), ",\"background\":"@) is None,
        b.border is None ==> expect(at_bt(b, lt), ",\"border\":"@) is None,
        b.border_top is None ==> expect(at_bb(b, lt), ",\"border_top\":"@) is None,
        b.border_bottom is None ==> expect(at_bl(b, lt), ",\"border_bottom\":"@) is None,
        b.border_left is None ==> expect(at_br(b, lt), ",\"border_left\":"@) is None,
        b.border_right is None ==> expect(lt, ",\"border_right\":"@) is None,
{
    reveal_strlit(",\"short_text\":");
    reveal_strlit(",\"color\":");
    reveal_strlit(",\"background\":");
    reveal_strlit(",\"border\":");
    reveal_strlit(",\"border_top\":");
    reveal_strlit(",\"border_bottom\":");
    reveal_strlit(",\"border_left\":");
    reveal_strlit(",\"border_right\":");
    lemma_at_heads(b, lt);
    if b.short_text is None {
        let s = at_color(b, lt);
        if b.color is Some {
            assert(s[2] == 'c');
        } else {
            assert(s =~= at_bg(b, lt));
            if b.background is Some {
                assert(s[2] == 'b');
            } else {
                assert(s =~= at_border(b, lt));
                if b.border is Some {
                    assert(s[2] == 'b');
                } else {
                    assert(s =~= at_bt(b, lt));
                    if b.border_top is Some {
                        assert(s[2] == 'b');
                    } else {
                        assert(s =~= at_bb(b, lt));
                        if b.border_bottom is Some {
                            assert(s[2] == 'b');
                        } else {
                            assert(s =~= at_bl(b, lt));
                            if b.border_left is Some {
                                assert(s[2] == 'b');
                            } else {
                                assert(s =~= at_br(b, lt));
                                if b.border_right is Some {
                                    assert(s[2] == 'b');
                                } else {
                                    assert(s =~= lt);
                                    assert(s[2] == 'm');
                                }
                            }
                        }
                    }
                }
            }
        }
        assert(s[2] != 's');
        lemma_expect_mismatch(s, ",\"short_text\":"@, 2);
    }
    if b.color is None {
        let s = at_bg(b, lt);
        if b.background is Some {
            assert(s[2] == 'b');
        } else {
            assert(s =~= at_border(b, lt));
            if b.border is Some {
                assert(s[2] == 'b');
            } else {
                assert(s =~= at_bt(b, lt));
                if b.border_top is Some {
                    assert(s[2] == 'b');
                } else {
                    assert(s =~= at_bb(b, lt));
                    if b.border_bottom is Some {
                        assert(s[2] == 'b');
                    } else {
                        assert(s =~= at_bl(b, lt));
                        if b.border_left is Some {
                            assert(s[2] == 'b');
                        } else {
                            assert(s =~= at_br(b, lt));
                            if b.border_right is Some {
                                assert(s[2] == 'b');
                            } else {
                                assert(s =~= lt);
                                assert(s[2] == 'm');
                            }
                        }
                    }
                }
            }
        }
        assert(s[2] != 'c');
        lemma_expect_mismatch(s, ",\"color\":"@, 2);
    }
    if b.background is None {
        let s = at_border(b, lt);
        if b.border is Some {
            assert(s =~= ",\"border\":"@ + (json_string(b.border->0) + at_bt(b, lt)));
            assert(s[3] == 'o');
            lemma_expect_mismatch(s, ",\"background\":"@, 3);
        } else {
            assert(s =~= at_bt(b, lt));
            if b.border_top is Some {
                assert(s =~= ",\"border_top\":"@ + (dec_digits(b.border_top->0 as nat) + at_bb(
                    b,
                    lt,
                )));
                assert(s[3] == 'o');
                lemma_expect_mismatch(s, ",\"background\":"@, 3);
            } else {
                assert(s =~= at_bb(b, lt));
                if b.border_bottom is Some {
                    assert(s =~= ",\"border_bottom\":"@ + (dec_digits(b.border_bottom->0 as nat)
                        + at_bl(b, lt)));
                    assert(s[3] == 'o');
                    lemma_expect_mismatch(s, ",\"background\":"@, 3);
                } else {
                    assert(s =~= at_bl(b, lt));
                    if b.border_left is Some {
                        assert(s =~= ",\"border_left\":"@ + (dec_digits(b.border_left->0 as nat)
                            + at_br(b, lt)));
                        assert(s[3] == 'o');
                        lemma_expect_mismatch(s, ",\"background\":"@, 3);
                    } else {
                        assert(s =~= at_br(b, lt));
                        if b.border_right is Some {
                            assert(s =~= ",\"border_right\":"@ + (dec_digits(
                                b.border_right->0 as nat,
                            ) + lt));
                            assert(s[3] == 'o');
                            lemma_expect_mismatch(s, ",\"background\":"@, 3);
                        } else {
                            assert(s =~= lt);
                            assert(s[2] == 'm');
                            lemma_expect_mismatch(s, ",\"background\":"@, 2);
                        }
                    }
                }
            }
        }
    }
    if b.border is None {
        let s = at_bt(b, lt);
        if b.border_top is Some {
            assert(s =~= ",\"border_top\":"@ + (dec_digits(b.border_top->0 as nat) + at_bb(
                b,
                lt,
            )));
            assert(s[8] == '_');
            lemma_expect_mismatch(s, ",\"border\":"@, 8);
        } else {
            assert(s =~= at_bb(b, lt));
            if b.border_bottom is Some {
                assert(s =~= ",\"border_bottom\":"@ + (dec_digits(b.border_bottom->0 as nat)
                    + at_bl(b, lt)));
                assert(s[8] == '_');
                lemma_expect_mismatch(s, ",\"border\":"@, 8);
            } else {
                assert(s =~= at_bl(b, lt));
                if b.border_left is Some {
                    assert(s =~= ",\"border_left\":"@ + (dec_digits(b.border_left->0 as nat)
                        + at_br(b, lt)));
                    assert(s[8] == '_');
                    lemma_expect_mismatch(s, ",\"border\":"@, 8);
                } else {
                    assert(s =~= at_br(b, lt));
                    if b.border_right is Some {
                        assert(s =~= ",\"border_right\":"@ + (dec_digits(b.border_right->0 as nat)
                            + lt));
                        assert(s[8] == '_');
                        lemma_expect_mismatch(s, ",\"border\":"@, 8);
                    } else {
                        assert(s =~= lt);
                        assert(s[2] == 'm');
                        lemma_expect_mismatch(s, ",\"border\":"@, 2);
                    }
                }
            }
        }
    }
    if b.border_top is None {
        let s = at_bb(b, lt);
        if b.border_bottom is Some {
            assert(s =~= ",\"border_bottom\":"@ + (dec_digits(b.border_bottom->0 as nat) + at_bl(
                b,
                lt,
            )));
            assert(s[9] == 'b');
            lemma_expect_mismatch(s, ",\"border_top\":"@, 9);
        } else {
            assert(s =~= at_bl(b, lt));
            if b.border_left is Some {
                assert(s =~= ",\"border_left\":"@ + (dec_digits(b.border_left->0 as nat) + at_br(
                    b,
                    lt,
                )));
                assert(s[9] == 'l');
                lemma_expect_mismatch(s, ",\"border_top\":"@, 9);
            } else {
                assert(s =~= at_br(b, lt));
                if b.border_right is Some {
                    assert(s =~= ",\"border_right\":"@ + (dec_digits(b.border_right->0 as nat)
                        + lt));
                    assert(s[9] == 'r');
                    lemma_expect_mismatch(s, ",\"border_top\":"@, 9);
                } else {
                    assert(s =~= lt);
                    assert(s[2] == 'm');
                    lemma_expect_mismatch(s, ",\"border_top\":"@, 2);
                }
            }
        }
    }
    if b.border_bottom is None {
        let s = at_bl(b, lt);
        if b.border_left is Some {
            assert(s =~= ",\"border_left\":"@ + (dec_digits(b.border_left->0 as nat) + at_br(
                b,
                lt,
            )));
            assert(s[9] == 'l');
            lemma_expect_mismatch(s, ",\"border_bottom\":"@, 9);
        } else {
            assert(s =~= at_br(b, lt));
            if b.border_right is Some {
                assert(s =~= ",\"border_right\":"@ + (dec_digits(b.border_right->0 as nat) + lt));
                assert(s[9] == 'r');
                lemma_expect_mismatch(s, ",\"border_bottom\":"@, 9);
            } else {
                assert(s =~= lt);
                assert(s[2] == 'm');
                lemma_expect_mismatch(s, ",\"border_bottom\":"@, 2);
            }
        }
    }
    if b.border_left is None {
        let s = at_br(b, lt);
        if b.border_right is Some {
            assert(s =~= ",\"border_right\":"@ + (dec_digits(b.border_right->0 as nat) + lt));
            assert(s[9] == 'r');
            lemma_expect_mismatch(s, ",\"border_left\":"@, 9);
        } else {
            assert(s =~= lt);
            assert(s[2] == 'm');
            lemma_expect_mismatch(s, ",\"border_left\":"@, 2);
        }
    }
    if b.border_right is None {
        assert(lt[2] == 'm');
        lemma_expect_mismatch(lt, ",\"border_right\":"@, 2);
    }
}

/// The text fields parse back.
proof fn lemma_round_bj_text(b: BlockV, lt: Seq<char>)
    requires
        b.short_text is None ==> expect(at_color(b, lt), ",\"short_text\":"@) is None,
    ensures
        parse_bj_text("{\"full_text\":"@ + (json_string(b.full_text) + at_short(b, lt)))
            == Option::Some(((b.full_text, b.short_text), at_color(b, lt))),
{
    lemma_expect_self("{\"full_text\":"@, json_string(b.full_text) + at_short(b, lt));
    lemma_parse_json_string_round(b.full_text, at_short(b, lt));
    lemma_opt_str_round(b.short_text, ",\"short_text\":"@, at_color(b, lt));
}

/// The color fields parse back.
proof fn lemma_round_bj_colors(b: BlockV, lt: Seq<char>)
    requires
        b.color is None ==> expect(at_bg(b, lt), ",\"color\":"@) is None,
        b.background is None ==> expect(at_border(b, lt), ",\"background\":"@) is None,
        b.border is None ==> expect(at_bt(b, lt), ",\"border\":"@) is None,
    ensures
        parse_bj_colors(at_color(b, lt)) == Option::Some(
            ((b.color, b.background, b.border), at_bt(b, lt)),
        ),
{
    lemma_opt_str_round(b.color, ",\"color\":"@, at_bg(b, lt));
    lemma_opt_str_round(b.background, ",\"background\":"@, at_border(b, lt));
    lemma_opt_str_round(b.border, ",\"border\":"@, at_bt(b, lt));
}

/// The border width fields parse back.
proof fn lemma_round_bj_borders(b: BlockV, lt: Seq<char>)
    requires
        lt.len() > 2,
        lt[0] == ',',
        b.border_top is None ==> expect(at_bb(b, lt), ",\"border_top\":"@) is None,
        b.border_bottom is None ==> expect(at_bl(b, lt), ",\"border_bottom\":"@) is None,
        b.border_left is None ==> expect(at_br(b, lt), ",\"border_left\":"@) is None,
        b.border_right is None ==> expect(lt, ",\"border_right\":"@) is None,
    ensures
        parse_bj_borders(at_bt(b, lt)) == Option::Some(
            ((b.border_top, b.border_bottom, b.border_left, b.border_right), lt),
        ),
{
    lemma_at_heads(b, lt);
    lemma_opt_u32_round(b.border_top, ",\"border_top\":"@, at_bb(b, lt));
    lemma_opt_u32_round(b.border_bottom, ",\"border_bottom\":"@, at_bl(b, lt));
    lemma_opt_u32_round(b.border_left, ",\"border_left\":"@, at_br(b, lt));
    lemma_opt_u32_round(b.border_right, ",\"border_right\":"@, lt);
}

/// The width and alignment fields parse back.
proof fn lemma_round_bj_layout(b: BlockV, t: Seq<char>)
    requires
        b.align is None ==> expect(t, ",\"align\":"@) is None,
        t.len() > 0,
        t[0] == ',',
    ensures
        parse_bj_layout(bj_layout(b) + t) == Option::Some(((b.min_width, b.align), t)),
{
    let key = ",\"min_width\":"@;
    let after_mw = opt_align_field(",\"align\":"@, b.align) + t;
    assert(bj_layout(b) + t =~= key + (min_width_json(b.min_width) + after_mw));
    lemma_expect_self(key, min_width_json(b.min_width) + after_mw);
    reveal_strlit(",\"align\":");
    match b.align {
        Option::Some(a) => {
            assert(after_mw =~= ",\"align\":"@ + (align_json(a) + t));
            assert(after_mw[0] == ',');
        },
        Option::None => {
            assert(after_mw =~= t);
        },
    }
    assert(after_mw.len() > 0 && !is_digit(after_mw[0]));
    match b.min_width {
        MinWidthV::WidthOf(w) => {
            reveal_strlit("\"");
            let s = json_string(w) + after_mw;
            assert(s[0] == '"');
            lemma_parse_json_string_round(w, after_mw);
        },
        MinWidthV::Pixels(n) => {
            let s = dec_digits(n as nat) + after_mw;
            lemma_dec_digits_are_digits(n as nat);
            assert(s[0] == dec_digits(n as nat)[0]);
            assert(is_digit(s[0]));
            assert(s[0] != '"');
            lemma_parse_u32_round(n, after_mw);
        },
    }
    match b.align {
        Option::Some(a) => {
            lemma_expect_self(",\"align\":"@, align_json(a) + t);
            reveal_strlit("\"left\"");
            reveal_strlit("\"right\"");
            reveal_strlit("\"center\"");
            let v = align_json(a) + t;
            match a {
                Align::Left => {
                    lemma_expect_self("\"left\""@, t);
                },
                Align::Right => {
                    assert(v[1] == 'r');
                    lemma_expect_mismatch(v, "\"left\""@, 1);
                    lemma_expect_self("\"right\""@, t);
                },
                Align::Center => {
                    assert(v[1] == 'c');
                    lemma_expect_mismatch(v, "\"left\""@, 1);
                    lemma_expect_mismatch(v, "\"right\""@, 1);
                    lemma_expect_self("\"center\""@, t);
                },
            }
        },
        Option::None => {},
    }
}

/// The identity fields parse back.
proof fn lemma_round_bj_identity(b: BlockV, t: Seq<char>)
    ensures
        parse_bj_identity(bj_identity(b) + t) == Option::Some(((b.name, b.instance), t)),
{
    let k1 = ",\"name\":"@;
    let k2 = ",\"instance\":"@;
    assert(bj_identity(b) + t =~= k1 + (json_string(b.name) + (k2 + (json_string(b.instance)
        + t))));
    lemma_expect_self(k1, json_string(b.name) + (k2 + (json_string(b.instance) + t)));
    lemma_parse_json_string_round(b.name, k2 + (json_string(b.instance) + t));
    lemma_expect_self(k2, json_string(b.instance) + t);
    lemma_parse_json_string_round(b.instance, t);
}

/// The closing fields parse back.
#[verifier::rlimit(100)]
proof fn lemma_round_bj_state(b: BlockV, t: Seq<char>)
    ensures
        parse_bj_state(bj_state(b) + t) == Option::Some(
            ((b.urgent, b.separator, b.separator_block_width, b.markup), t),
        ),
{
    let ku = ",\"urgent\":"@;
    let ks = ",\"separator\":"@;
    let ksbw = ",\"separator_block_width\":"@;
    let km = ",\"markup\":"@;
    let kb = "}"@;
    let s7 = kb + t;
    let s6 = markup_json(b.markup) + s7;
    let s5 = km + s6;
    let s4 = opt_u32_field(ksbw, b.separator_block_width) + s5;
    let s3 = bool_chars(b.separator) + s4;
    let s2 = ks + s3;
    let s1 = bool_chars(b.urgent) + s2;
    assert(bj_state(b) + t == ku + s1) by {
        let bu = bool_chars(b.urgent);
        let bsep = bool_chars(b.separator);
        let osbw = opt_u32_field(ksbw, b.separator_block_width);
        let mj = markup_json(b.markup);
        lemma_assoc((((((ku + bu) + ks) + bsep) + osbw) + km) + mj, kb, t);
        lemma_assoc(((((ku + bu) + ks) + bsep) + osbw) + km, mj, kb + t);
        lemma_assoc((((ku + bu) + ks) + bsep) + osbw, km, s6);
        lemma_assoc(((ku + bu) + ks) + bsep, osbw, s5);
        lemma_assoc((ku + bu) + ks, bsep, s4);
        lemma_assoc(ku + bu, ks, s3);
        lemma_assoc(ku, bu, s2);
    }
    lemma_expect_self(ku, s1);
    lemma_parse_bool_round(b.urgent, s2);
    lemma_expect_self(ks, s3);
    lemma_parse_bool_round(b.separator, s4);
    reveal_strlit(",\"separator_block_width\":");
    reveal_strlit(",\"markup\":");
    assert(s5[0] == ',' && s5[2] == 'm');
    if b.separator_block_width is None {
        lemma_expect_mismatch(s5, ksbw, 2);
    }
    lemma_opt_u32_round(b.separator_block_width, ksbw, s5);
    lemma_expect_self(km, s6);
    match b.markup {
        Markup::Pango => {
            lemma_expect_self("\"pango\""@, s7);
        },
        Markup::Plain => {
            reveal_strlit("\"pango\"");
            reveal_strlit("\"none\"");
            assert(s6 =~= "\"none\""@ + s7);
            assert(s6[1] == 'n');
            lemma_expect_mismatch(s6, "\"pango\""@, 1);
            lemma_expect_self("\"none\""@, s7);
        },
    }
    lemma_expect_self(kb, t);
}

/// Everything of a block object from the mandatory width key on.
spec fn layout_tail(b: BlockV, rest: Seq<char>) -> Seq<char> {
    bj_layout(b) + (bj_identity(b) + (bj_state(b) + rest))
}

/// Concatenation is associative.
proof fn lemma_assoc<A>(a: Seq<A>, b: Seq<A>, c: Seq<A>)
    ensures
        (a + b) + c == a + (b + c),
{
    assert((a + b) + c =~= a + (b + c));
}

/// A serialized block object, regrouped around the optional fields'
/// position streams.
proof fn lemma_block_stream_decomposed(b: BlockV, rest: Seq<char>)
    ensures
        block_json(b) + rest == "{\"full_text\":"@ + (json_string(b.full_text) + at_short(
            b,
            layout_tail(b, rest),
        )),
{
    reveal(block_json);
    let lt = layout_tail(b, rest);
    let a1 = bj_text(b);
    let a2 = bj_colors(b);
    let a3 = bj_borders(b);
    let a4 = bj_layout(b);
    let a5 = bj_identity(b);
    let a6 = bj_state(b);
    lemma_assoc((((a1 + a2) + a3) + a4) + a5, a6, rest);
    lemma_assoc(((a1 + a2) + a3) + a4, a5, a6 + rest);
    lemma_assoc((a1 + a2) + a3, a4, a5 + (a6 + rest));
    assert(a4 + (a5 + (a6 + rest)) == lt);
    let obt = opt_u32_field(",\"border_top\":"@, b.border_top);
    let obb = opt_u32_field(",\"border_bottom\":"@, b.border_bottom);
    let obl = opt_u32_field(",\"border_left\":"@, b.border_left);
    let obr = opt_u32_field(",\"border_right\":"@, b.border_right);
    lemma_assoc(a1 + a2, a3, lt);
    lemma_assoc((obt + obb) + obl, obr, lt);
    lemma_assoc(obt + obb, obl, obr + lt);
    lemma_assoc(obt, obb, obl + at_br(b, lt));
    assert(a3 + lt == at_bt(b, lt));
    lemma_assoc(a1, a2, at_bt(b, lt));
    let oc = opt_str_field(",\"color\":"@, b.color);
    let obg = opt_str_field(",\"background\":"@, b.background);
    let obd = opt_str_field(",\"border\":"@, b.border);
    lemma_assoc(oc + obg, obd, at_bt(b, lt));
    lemma_assoc(oc, obg, obd + at_bt(b, lt));
    assert(a2 + at_bt(b, lt) == at_color(b, lt));
    let k0 = "{\"full_text\":"@;
    let js = json_string(b.full_text);
    let ost = opt_str_field(",\"short_text\":"@, b.short_text);
    lemma_assoc(k0 + js, ost, at_color(b, lt));
    lemma_assoc(k0, js, ost + at_color(b, lt));
    assert(a1 + at_color(b, lt) == k0 + (js + at_short(b, lt)));
    assert(block_json(b) + rest == k0 + (js + at_short(b, lt)));
}

/// Parsing inverts block serialization: every block, with whatever
/// optional fields set, comes back from its JSON object exactly.
#[verifier::rlimit(60)]
pub proof fn lemma_parse_block_round(b: BlockV, rest: Seq<char>)
    ensures
        parse_block(block_json(b) + rest) == Option::Some((b, rest)),
{
    let t4 = bj_state(b) + rest;
    let t3 = bj_identity(b) + t4;
    let lt = layout_tail(b, rest);
    assert(lt == bj_layout(b) + t3);
    lemma_block_stream_decomposed(b, rest);
    assert(lt.len() > 2 && lt[0] == ',' && lt[2] == 'm') by {
        reveal_strlit(",\"min_width\":");
        assert(bj_layout(b) =~= ",\"min_width\":"@ + (min_width_json(b.min_width)
            + opt_align_field(",\"align\":"@, b.align)));
        assert(lt =~= ",\"min_width\":"@ + ((min_width_json(b.min_width) + opt_align_field(
            ",\"align\":"@,
            b.align,
        )) + t3));
    }
    lemma_keys_absent(b, lt);
    lemma_round_bj_text(b, lt);
    lemma_round_bj_colors(b, lt);
    lemma_round_bj_borders(b, lt);
    assert(t3.len() > 2 && t3[0] == ',' && t3[2] == 'n') by {
        reveal_strlit(",\"name\":");
        assert(t3 =~= ",\"name\":"@ + (json_string(b.name) + (",\"instance\":"@ + (json_string(
            b.instance,
        ) + t4))));
    }
    assert(",\"align\":"@.len() > 2 && ",\"align\":"@[2] == 'a') by {
        reveal_strlit(",\"align\":");
    }
    lemma_expect_mismatch(t3, ",\"align\":"@, 2);
    lemma_round_bj_layout(b, t3);
    lemma_round_bj_identity(b, t4);
    lemma_round_bj_state(b, rest);
    let s0 = block_json(b) + rest;
    assert(parse_bj_text(s0) == Option::Some(((b.full_text, b.short_text), at_color(b, lt))));
    assert(parse_block(s0) matches Option::Some((p, r)) && r == rest && p =~= b);
}

/// The comma-separated blocks after the first parse back, given fuel
/// for every block.
#[verifier::rlimit(100)]
proof fn lemma_parse_blocks_more_round(bs: Seq<BlockV>, rest: Seq<char>, fuel: nat)
    requires
        fuel >= bs.len(),
    ensures
        parse_blocks_more(tail_blocks_json(bs) + ("]"@ + rest), fuel) == Option::Some((bs, rest)),
    decreases bs.len(),
{
    reveal_strlit("]");
    reveal_strlit(",");
    let s = tail_blocks_json(bs) + ("]"@ + rest);
    if bs.len() == 0 {
        assert(s =~= "]"@ + rest);
        assert(s[0] == ']');
        assert(s.skip(1) =~= rest);
        assert(bs =~= Seq::<BlockV>::empty());
    } else {
        let tail2 = tail_blocks_json(bs.skip(1)) + ("]"@ + rest);
        assert(s == ","@ + (block_json(bs[0]) + tail2)) by {
            lemma_assoc(","@ + block_json(bs[0]), tail_blocks_json(bs.skip(1)), "]"@ + rest);
            lemma_assoc(","@, block_json(bs[0]), tail2);
        }
        assert(s[0] == ',');
        lemma_expect_self(","@, block_json(bs[0]) + tail2);
        lemma_parse_block_round(bs[0], tail2);
        lemma_parse_blocks_more_round(bs.skip(1), rest, (fuel - 1) as nat);
        assert(seq![bs[0]] + bs.skip(1) =~= bs);
    }
}

/// Each comma-separated block object adds at least one character.
proof fn lemma_tail_blocks_min_len(bs: Seq<BlockV>)
    ensures
        tail_blocks_json(bs).len() >= bs.len(),
    decreases bs.len(),
{
    reveal_strlit(",");
    if bs.len() > 0 {
        lemma_tail_blocks_min_len(bs.skip(1));
    }
}

/// Round trip: a snapshot built from an ordered list of blocks,
/// serialized and parsed back, yields exactly the same blocks in the
/// same order — array order and every per-object field are preserved.
#[verifier::rlimit(60)]
pub proof fn lemma_parse_status_round(bs: Seq<BlockV>, rest: Seq<char>)
    ensures
        parse_status_json(status_json(bs) + rest) == Option::Some((bs, rest)),
{
    reveal_strlit("[");
    reveal_strlit("]");
    let s = status_json(bs) + rest;
    let s1 = blocks_json(bs) + ("]"@ + rest);
    assert(s =~= "["@ + s1);
    lemma_expect_self("["@, s1);
    if bs.len() == 0 {
        assert(s1 =~= "]"@ + rest);
        assert(s1[0] == ']');
        assert(s1.skip(1) =~= rest);
        assert(bs =~= Seq::<BlockV>::empty());
    } else {
        let tail2 = tail_blocks_json(bs.skip(1)) + ("]"@ + rest);
        lemma_assoc(block_json(bs[0]), tail_blocks_json(bs.skip(1)), "]"@ + rest);
        assert(s1 == block_json(bs[0]) + tail2);
        lemma_block_stream_decomposed(bs[0], tail2);
        assert(s1[0] == '{') by {
            reveal_strlit("{\"full_text\":");
            assert(block_json(bs[0]) + tail2 == "{\"full_text\":"@ + (json_string(
                bs[0].full_text,
            ) + at_short(bs[0], layout_tail(bs[0], tail2))));
        }
        assert(s1[0] != ']');
        lemma_parse_block_round(bs[0], tail2);
        lemma_tail_blocks_min_len(bs.skip(1));
        assert(tail2.len() >= bs.skip(1).len());
        lemma_parse_blocks_more_round(bs.skip(1), rest, tail2.len() as nat);
        assert(seq![bs[0]] + bs.skip(1) =~= bs);
    }
}

} // verus!
