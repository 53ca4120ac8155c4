//! The exact JSON wire format of the status stream: specification
//! functions giving the emitted character sequences, and executable
//! writers proved to produce exactly those sequences.

use vstd::prelude::*;

use crate::protocol::{Align, Block, BlockV, Header, Markup, MinWidth, MinWidthV, Status};

verus! {

/// The lowercase hexadecimal digit of a value below 16; also the decimal
/// digit of a value below 10.
pub open spec fn hex_digit(d: nat) -> char {
    if d == 0 {
        '0'
    } else if d == 1 {
        '1'
    } else if d == 2 {
        '2'
    } else if d == 3 {
        '3'
    } else if d == 4 {
        '4'
    } else if d == 5 {
        '5'
    } else if d == 6 {
        '6'
    } else if d == 7 {
        '7'
    } else if d == 8 {
        '8'
    } else if d == 9 {
        '9'
    } else if d == 10 {
        'a'
    } else if d == 11 {
        'b'
    } else if d == 12 {
        'c'
    } else if d == 13 {
        'd'
    } else if d == 14 {
        'e'
    } else {
        'f'
    }
}

/// How one character appears inside a JSON string literal: quote and
/// backslash are escaped, control characters get their short escape or a
/// `\u00..` escape, everything else stands for itself.
pub open spec fn esc_char(c: char) -> Seq<char> {
    if c == '"' {
        "\\\""@
    } else if c == '\\' {
        "\\\\"@
    } else if c as u32 >= 0x20 {
        seq![c]
    } else if c == '\u{8}' {
        "\\b"@
    } else if c == '\t' {
        "\\t"@
    } else if c == '\n' {
        "\\n"@
    } else if c == '\u{c}' {
        "\\f"@
    } else if c == '\r' {
        "\\r"@
    } else {
        "\\u00"@ + seq![hex_digit((c as u32 / 16) as nat), hex_digit((c as u32 % 16) as nat)]
    }
}

/// The body of a JSON string literal: every character escaped in turn.
pub open spec fn json_escaped(s: Seq<char>) -> Seq<char>
    decreases s.len(),
{
    if s.len() == 0 {
        Seq::empty()
    } else {
        esc_char(s[0]) + json_escaped(s.skip(1))
    }
}

/// A whole JSON string literal: the escaped body between double quotes.
pub open spec fn json_string(s: Seq<char>) -> Seq<char> {
    "\""@ + json_escaped(s) + "\""@
}

/// The decimal digits of a natural number, most significant first.
pub open spec fn dec_digits(n: nat) -> Seq<char>
    decreases n,
{
    if n < 10 {
        seq![hex_digit(n)]
    } else {
        dec_digits(n / 10) + seq![hex_digit(n % 10)]
    }
}

/// The decimal rendering of an integer: a minus sign where negative.
pub open spec fn int_chars(i: int) -> Seq<char> {
    if i < 0 {
        "-"@ + dec_digits((-i) as nat)
    } else {
        dec_digits(i as nat)
    }
}

/// The JSON rendering of a boolean.
pub open spec fn bool_chars(b: bool) -> Seq<char> {
    if b {
        "true"@
    } else {
        "false"@
    }
}

/// Escaping distributes over concatenation.
pub proof fn lemma_escaped_concat(a: Seq<char>, b: Seq<char>)
    ensures
        json_escaped(a + b) == json_escaped(a) + json_escaped(b),
    decreases a.len(),
{
    if a.len() == 0 {
        assert(a + b =~= b);
        assert(json_escaped(a) + json_escaped(b) =~= json_escaped(b));
    } else {
        assert((a + b).skip(1) =~= a.skip(1) + b);
        lemma_escaped_concat(a.skip(1), b);
        assert(esc_char((a + b)[0]) + (json_escaped(a.skip(1)) + json_escaped(b)) =~= (esc_char(
            a[0],
        ) + json_escaped(a.skip(1))) + json_escaped(b));
    }
}

/// Escaping one more character appends that character's escape.
pub proof fn lemma_escaped_take_snoc(s: Seq<char>, i: int)
    requires
        0 <= i < s.len(),
    ensures
        json_escaped(s.take(i + 1)) == json_escaped(s.take(i)) + esc_char(s[i]),
{
    assert(s.take(i + 1) =~= s.take(i) + seq![s[i]]);
    lemma_escaped_concat(s.take(i), seq![s[i]]);
    assert(seq![s[i]].skip(1) =~= Seq::<char>::empty());
    assert(json_escaped(Seq::<char>::empty()) =~= Seq::<char>::empty());
    assert(json_escaped(seq![s[i]]) =~= esc_char(s[i]));
    assert(json_escaped(s.take(i)) + (esc_char(s[i]) + Seq::<char>::empty()) =~= json_escaped(
        s.take(i),
    ) + esc_char(s[i]));
}

/// Append the lowercase hexadecimal digit of `d`.
fn append_hex_digit(out: &mut String, d: u8)
    requires
        d < 16,
    ensures
        final(out)@ == old(out)@ + seq![hex_digit(d as nat)],
{
    let table = "0123456789abcdef";
    proof {
        reveal_strlit("0123456789abcdef");
    }
    let piece = table.substring_char(d as usize, d as usize + 1);
    assert(piece@ =~= seq![hex_digit(d as nat)]);
    out.append(piece);
}

/// Append the decimal digits of `n`, most significant first.
pub fn append_u64_dec(out: &mut String, n: u64)
    ensures
        final(out)@ == old(out)@ + dec_digits(n as nat),
    decreases n,
{
    if n < 10 {
        append_hex_digit(out, n as u8);
    } else {
        append_u64_dec(out, n / 10);
        append_hex_digit(out, (n % 10) as u8);
        proof {
            assert((old(out)@ + dec_digits(n as nat / 10)) + seq![hex_digit(n as nat % 10)]
                =~= old(out)@ + (dec_digits(n as nat / 10) + seq![hex_digit(n as nat % 10)]));
        }
    }
}

/// Append the decimal rendering of a signed 32-bit value.
pub fn append_i32_dec(out: &mut String, n: i32)
    ensures
        final(out)@ == old(out)@ + int_chars(n as int),
{
    if n < 0 {
        out.append("-");
        let m = (-(n as i64)) as u64;
        append_u64_dec(out, m);
        proof {
            assert((old(out)@ + "-"@) + dec_digits(m as nat) =~= old(out)@ + ("-"@ + dec_digits(
                m as nat,
            )));
        }
    } else {
        append_u64_dec(out, n as u64);
    }
}

/// Append `"true"` or `"false"`.
pub fn append_bool(out: &mut String, b: bool)
    ensures
        final(out)@ == old(out)@ + bool_chars(b),
{
    if b {
        out.append("true");
    } else {
        out.append("false");
    }
}

/// Append a JSON string literal holding `s`.
pub fn append_json_string(out: &mut String, s: &str)
    ensures
        final(out)@ == old(out)@ + json_string(s@),
{
    out.append("\"");
    let n = s.unicode_len();
    let mut i: usize = 0;
    while i < n
        invariant
            i <= n,
            n == s@.len(),
            out@ == old(out)@ + "\""@ + json_escaped(s@.take(i as int)),
        decreases n - i,
    {
        let ghost prefix = out@;
        let c = s.get_char(i);
        if c == '"' {
            out.append("\\\"");
        } else if c == '\\' {
            out.append("\\\\");
        } else if c as u32 >= 0x20 {
            let piece = s.substring_char(i, i + 1);
            assert(piece@ =~= seq![c]);
            out.append(piece);
        } else if c == '\u{8}' {
            out.append("\\b");
        } else if c == '\t' {
            out.append("\\t");
        } else if c == '\n' {
            out.append("\\n");
        } else if c == '\u{c}' {
            out.append("\\f");
        } else if c == '\r' {
            out.append("\\r");
        } else {
            out.append("\\u00");
            append_hex_digit(out, (c as u32 / 16) as u8);
            append_hex_digit(out, (c as u32 % 16) as u8);
            proof {
                assert(out@ =~= prefix + esc_char(c));
            }
        }
        proof {
            assert(out@ =~= prefix + esc_char(c));
            lemma_escaped_take_snoc(s@, i as int);
            assert(out@ =~= old(out)@ + "\""@ + json_escaped(s@.take(i as int + 1)));
        }
        i += 1;
    }
    proof {
        assert(s@.take(n as int) =~= s@);
    }
    out.append("\"");
    proof {
        assert(out@ =~= old(out)@ + json_string(s@));
    }
}

/// A string-valued block field that may be absent: nothing when unset,
/// else the key prefix followed by the JSON string.
pub open spec fn opt_str_field(prefix: Seq<char>, v: Option<Seq<char>>) -> Seq<char> {
    match v {
        Option::Some(s) => prefix + json_string(s),
        Option::None => Seq::empty(),
    }
}

/// A numeric block field that may be absent: nothing when unset, else the
/// key prefix followed by the decimal value.
pub open spec fn opt_u32_field(prefix: Seq<char>, v: Option<u32>) -> Seq<char> {
    match v {
        Option::Some(n) => prefix + dec_digits(n as nat),
        Option::None => Seq::empty(),
    }
}

/// The JSON value of a minimum width: a pixel count as a number, a
/// reference string as a JSON string.
pub open spec fn min_width_json(w: MinWidthV) -> Seq<char> {
    match w {
        MinWidthV::Pixels(n) => dec_digits(n as nat),
        MinWidthV::WidthOf(s) => json_string(s),
    }
}

/// The JSON value of an alignment.
pub open spec fn align_json(a: Align) -> Seq<char> {
    match a {
        Align::Left => "\"left\""@,
        Align::Right => "\"right\""@,
        Align::Center => "\"center\""@,
    }
}

/// The JSON value of a markup mode.
pub open spec fn markup_json(m: Markup) -> Seq<char> {
    match m {
        Markup::Pango => "\"pango\""@,
        Markup::Plain => "\"none\""@,
    }
}

/// An alignment field that may be absent.
pub open spec fn opt_align_field(prefix: Seq<char>, v: Option<Align>) -> Seq<char> {
    match v {
        Option::Some(a) => prefix + align_json(a),
        Option::None => Seq::empty(),
    }
}

/// The opening of a block object: the mandatory text and the optional
/// shortened text.
pub open spec fn bj_text(b: BlockV) -> Seq<char> {
    "{\"full_text\":"@ + json_string(b.full_text) + opt_str_field(",\"short_text\":"@, b.short_text)
}

/// The optional color fields of a block object.
pub open spec fn bj_colors(b: BlockV) -> Seq<char> {
    opt_str_field(",\"color\":"@, b.color) + opt_str_field(",\"background\":"@, b.background)
        + opt_str_field(",\"border\":"@, b.border)
}

/// The optional border width fields of a block object.
pub open spec fn bj_borders(b: BlockV) -> Seq<char> {
    opt_u32_field(",\"border_top\":"@, b.border_top) + opt_u32_field(
        ",\"border_bottom\":"@,
        b.border_bottom,
    ) + opt_u32_field(",\"border_left\":"@, b.border_left) + opt_u32_field(
        ",\"border_right\":"@,
        b.border_right,
    )
}

/// The width and alignment fields of a block object.
pub open spec fn bj_layout(b: BlockV) -> Seq<char> {
    ",\"min_width\":"@ + min_width_json(b.min_width) + opt_align_field(",\"align\":"@, b.align)
}

/// The identity fields of a block object.
pub open spec fn bj_identity(b: BlockV) -> Seq<char> {
    ",\"name\":"@ + json_string(b.name) + ",\"instance\":"@ + json_string(b.instance)
}

/// The closing fields of a block object: urgency, separator and markup.
pub open spec fn bj_state(b: BlockV) -> Seq<char> {
    ",\"urgent\":"@ + bool_chars(b.urgent) + ",\"separator\":"@ + bool_chars(b.separator)
        + opt_u32_field(",\"separator_block_width\":"@, b.separator_block_width) + ",\"markup\":"@
        + markup_json(b.markup) + "}"@
}

/// The JSON object of one block: fields in the host protocol's order,
/// optional fields present exactly when they are set.
#[verifier::opaque]
pub open spec fn block_json(b: BlockV) -> Seq<char> {
    bj_text(b) + bj_colors(b) + bj_borders(b) + bj_layout(b) + bj_identity(b) + bj_state(b)
}

/// Every block after the first, each preceded by a comma.
pub open spec fn tail_blocks_json(bs: Seq<BlockV>) -> Seq<char>
    decreases bs.len(),
{
    if bs.len() == 0 {
        Seq::empty()
    } else {
        ","@ + block_json(bs[0]) + tail_blocks_json(bs.skip(1))
    }
}

/// The comma-separated block objects of a snapshot.
pub open spec fn blocks_json(bs: Seq<BlockV>) -> Seq<char> {
    if bs.len() == 0 {
        Seq::empty()
    } else {
        block_json(bs[0]) + tail_blocks_json(bs.skip(1))
    }
}

/// The JSON array of a whole snapshot.
pub open spec fn status_json(bs: Seq<BlockV>) -> Seq<char> {
    "["@ + blocks_json(bs) + "]"@
}

/// The JSON object of the protocol header.
pub open spec fn header_json(h: Header) -> Seq<char> {
    "{\"version\":"@ + dec_digits(h.version as nat) + ",\"click_events\":"@ + bool_chars(
        h.click_events,
    ) + ",\"cont_signal\":"@ + int_chars(h.cont_signal as int) + ",\"stop_signal\":"@ + int_chars(
        h.stop_signal as int,
    ) + "}"@
}

/// One more block extends the comma-separated tail by a comma and that
/// block's object.
pub proof fn lemma_tail_blocks_snoc(bs: Seq<BlockV>, x: BlockV)
    ensures
        tail_blocks_json(bs.push(x)) == tail_blocks_json(bs) + ","@ + block_json(x),
    decreases bs.len(),
{
    if bs.len() == 0 {
        assert(bs.push(x)[0] == x);
        assert(bs.push(x).skip(1) =~= Seq::<BlockV>::empty());
        assert(tail_blocks_json(Seq::<BlockV>::empty()) =~= Seq::<char>::empty());
        assert(tail_blocks_json(bs.push(x)) =~= (","@ + block_json(x)) + Seq::<char>::empty());
        assert(tail_blocks_json(bs.push(x)) =~= tail_blocks_json(bs) + ","@ + block_json(x));
    } else {
        assert(bs.push(x)[0] == bs[0]);
        assert(bs.push(x).skip(1) =~= bs.skip(1).push(x));
        lemma_tail_blocks_snoc(bs.skip(1), x);
        assert(tail_blocks_json(bs.push(x)) =~= tail_blocks_json(bs) + ","@ + block_json(x));
    }
}

/// One more block extends a non-empty snapshot body by a comma and that
/// block's object.
pub proof fn lemma_blocks_snoc(bs: Seq<BlockV>, x: BlockV)
    ensures
        blocks_json(bs.push(x)) == if bs.len() == 0 {
            block_json(x)
        } else {
            blocks_json(bs) + ","@ + block_json(x)
        },
{
    if bs.len() == 0 {
        assert(bs.push(x)[0] == x);
        assert(bs.push(x).skip(1) =~= Seq::<BlockV>::empty());
        assert(tail_blocks_json(Seq::<BlockV>::empty()) =~= Seq::<char>::empty());
        assert(blocks_json(bs.push(x)) =~= block_json(x));
    } else {
        assert(bs.push(x)[0] == bs[0]);
        assert(bs.push(x).skip(1) =~= bs.skip(1).push(x));
        lemma_tail_blocks_snoc(bs.skip(1), x);
        assert(blocks_json(bs.push(x)) =~= blocks_json(bs) + ","@ + block_json(x));
    }
}

/// Append an optional string-valued field.
fn append_opt_str_field(out: &mut String, prefix: &str, v: &Option<String>)
    ensures
        final(out)@ == old(out)@ + opt_str_field(prefix@, crate::protocol::view_opt_string(*v)),
{
    match v {
        Some(s) => {
            out.append(prefix);
            append_json_string(out, s.as_str());
            proof {
                assert((old(out)@ + prefix@) + json_string(s@) =~= old(out)@ + (prefix@
                    + json_string(s@)));
            }
        },
        None => {
            proof {
                assert(old(out)@ + Seq::<char>::empty() =~= old(out)@);
            }
        },
    }
}

/// Append an optional numeric field.
fn append_opt_u32_field(out: &mut String, prefix: &str, v: &Option<u32>)
    ensures
        final(out)@ == old(out)@ + opt_u32_field(prefix@, *v),
{
    match v {
        Some(n) => {
            out.append(prefix);
            append_u64_dec(out, *n as u64);
            proof {
                assert((old(out)@ + prefix@) + dec_digits(*n as nat) =~= old(out)@ + (prefix@
                    + dec_digits(*n as nat)));
            }
        },
        None => {
            proof {
                assert(old(out)@ + Seq::<char>::empty() =~= old(out)@);
            }
        },
    }
}

/// Append the mandatory and optional text fields of a block.
fn append_bj_text(out: &mut String, b: &Block)
    ensures
        final(out)@ == old(out)@ + bj_text(b@),
{
    out.append("{\"full_text\":");
    append_json_string(out, b.full_text.as_str());
    append_opt_str_field(out, ",\"short_text\":", &b.short_text);
    proof {
        assert(out@ =~= old(out)@ + bj_text(b@));
    }
}

/// Append the optional color fields of a block.
fn append_bj_colors(out: &mut String, b: &Block)
    ensures
        final(out)@ == old(out)@ + bj_colors(b@),
{
    append_opt_str_field(out, ",\"color\":", &b.color);
    append_opt_str_field(out, ",\"background\":", &b.background);
    append_opt_str_field(out, ",\"border\":", &b.border);
    proof {
        assert(out@ =~= old(out)@ + bj_colors(b@));
    }
}

/// Append the optional border width fields of a block.
fn append_bj_borders(out: &mut String, b: &Block)
    ensures
        final(out)@ == old(out)@ + bj_borders(b@),
{
    append_opt_u32_field(out, ",\"border_top\":", &b.border_top);
    append_opt_u32_field(out, ",\"border_bottom\":", &b.border_bottom);
    append_opt_u32_field(out, ",\"border_left\":", &b.border_left);
    append_opt_u32_field(out, ",\"border_right\":", &b.border_right);
    proof {
        assert(out@ =~= old(out)@ + bj_borders(b@));
    }
}

/// Append the width and alignment fields of a block.
fn append_bj_layout(out: &mut String, b: &Block)
    ensures
        final(out)@ == old(out)@ + bj_layout(b@),
{
    out.append(",\"min_width\":");
    match &b.min_width {
        MinWidth::Pixels(n) => append_u64_dec(out, *n as u64),
        MinWidth::WidthOf(s) => append_json_string(out, s.as_str()),
    }
    match &b.align {
        Some(a) => {
            out.append(",\"align\":");
            match a {
                Align::Left => out.append("\"left\""),
                Align::Right => out.append("\"right\""),
                Align::Center => out.append("\"center\""),
            }
        },
        None => {},
    }
    proof {
        assert(out@ =~= old(out)@ + bj_layout(b@));
    }
}

/// Append the identity fields of a block.
fn append_bj_identity(out: &mut String, b: &Block)
    ensures
        final(out)@ == old(out)@ + bj_identity(b@),
{
    out.append(",\"name\":");
    append_json_string(out, b.name.as_str());
    out.append(",\"instance\":");
    append_json_string(out, b.instance.as_str());
    proof {
        assert(out@ =~= old(out)@ + bj_identity(b@));
    }
}

/// Append the closing fields of a block.
fn append_bj_state(out: &mut String, b: &Block)
    ensures
        final(out)@ == old(out)@ + bj_state(b@),
{
    out.append(",\"urgent\":");
    append_bool(out, b.urgent);
    out.append(",\"separator\":");
    append_bool(out, b.separator);
    append_opt_u32_field(out, ",\"separator_block_width\":", &b.separator_block_width);
    out.append(",\"markup\":");
    match b.markup {
        Markup::Pango => out.append("\"pango\""),
        Markup::Plain => out.append("\"none\""),
    }
    out.append("}");
    proof {
        assert(out@ =~= old(out)@ + bj_state(b@));
    }
}

/// Append the JSON object of one block.
pub fn append_block_json(out: &mut String, b: &Block)
    ensures
        final(out)@ == old(out)@ + block_json(b@),
{
    append_bj_text(out, b);
    append_bj_colors(out, b);
    append_bj_borders(out, b);
    append_bj_layout(out, b);
    append_bj_identity(out, b);
    append_bj_state(out, b);
    proof {
        reveal(block_json);
        assert(out@ =~= old(out)@ + block_json(b@));
    }
}

/// Render the JSON object of one block.
pub fn block_to_json(b: &Block) -> (r: String)
    ensures
        r@ == block_json(b@),
{
    let mut out = String::new();
    append_block_json(&mut out, b);
    proof {
        assert(Seq::<char>::empty() + block_json(b@) =~= block_json(b@));
    }
    out
}

/// Render the JSON array of a whole snapshot.
pub fn status_to_json(s: &Status) -> (r: String)
    ensures
        r@ == status_json(s@),
{
    let mut out = String::new();
    out.append("[");
    let k = s.blocks.len();
    let mut i: usize = 0;
    while i < k
        invariant
            i <= k,
            k == s.blocks@.len(),
            s@ == s.blocks@.map_values(|b: Block| b@),
            s@.len() == k,
            forall|j: int| 0 <= j < k ==> s@[j] == #[trigger] s.blocks@[j]@,
            out@ == Seq::<char>::empty() + "["@ + blocks_json(s@.take(i as int)),
        decreases k - i,
    {
        let ghost prefix = out@;
        if i > 0 {
            out.append(",");
        }
        append_block_json(&mut out, &s.blocks[i]);
        proof {
            assert(s@.take(i as int + 1) =~= s@.take(i as int).push(s@[i as int]));
            lemma_blocks_snoc(s@.take(i as int), s@[i as int]);
            if i > 0 {
                assert(out@ =~= prefix + ","@ + block_json(s@[i as int]));
            }
            assert(out@ =~= Seq::<char>::empty() + "["@ + blocks_json(s@.take(i as int + 1)));
        }
        i += 1;
    }
    proof {
        assert(s@.take(k as int) =~= s@);
    }
    out.append("]");
    proof {
        assert(out@ =~= status_json(s@));
    }
    out
}

/// Render the JSON object of the protocol header.
pub fn header_to_json(h: &Header) -> (r: String)
    ensures
        r@ == header_json(*h),
{
    let mut out = String::new();
    out.append("{\"version\":");
    append_u64_dec(&mut out, h.version as u64);
    out.append(",\"click_events\":");
    append_bool(&mut out, h.click_events);
    out.append(",\"cont_signal\":");
    append_i32_dec(&mut out, h.cont_signal);
    out.append(",\"stop_signal\":");
    append_i32_dec(&mut out, h.stop_signal);
    out.append("}");
    proof {
        assert(out@ =~= header_json(*h));
    }
    out
}

} // verus!
