//! The payload codec: encoding an envelope as one self-delimited JSON
//! line, and decoding one line back into an envelope.
//!
//! The wire format is newline-delimited JSON, one envelope per line, with
//! snake_case field names and `type` tags and numeric error codes, as the
//! protocol fixes them. [`spec_decode`] is the exact mathematical parser
//! that [`decode`] implements, and [`spec_encode`] the exact renderer that
//! [`encode`] implements; [`lemma_encode_decode`] proves that decoding an
//! encoded envelope gives the envelope back.
//!
//! The decoder accepts JSON whitespace between tokens, fields in any
//! order, `null` for the optional fields, and the standard string escapes
//! (`\uXXXX` for scalar values in the basic plane). It rejects duplicate
//! and unknown fields, unknown `type` tags, numbers out of the `u32`
//! range, and anything else outside the envelope schema; leading zeros in
//! numbers are tolerated. The encoder emits a canonical form: no
//! whitespace, the `type` tag first, absent optional fields omitted.

use vstd::prelude::*;

use crate::protocol::{
    code_of_value_spec, code_value_spec, Body, BodyV, Envelope, EnvelopeV, ErrorCode, Payload,
    PayloadV,
};

verus! {

// ---------------------------------------------------------------------
// Character classes and literals
// ---------------------------------------------------------------------
/// Whether `c` is JSON whitespace.
pub open spec fn is_ws(c: char) -> bool {
    c == ' ' || c == '\t' || c == '\n' || c == '\r'
}

/// Whether `c` is a decimal digit.
pub open spec fn is_digit(c: char) -> bool {
    '0' <= c && c <= '9'
}

/// The numeric value of a decimal digit.
pub open spec fn digit_val(c: char) -> nat {
    (c as u32 - '0' as u32) as nat
}

/// The numeric value of a hexadecimal digit, if `c` is one.
pub open spec fn hex_val(c: char) -> Option<nat> {
    if '0' <= c && c <= '9' {
        Some((c as u32 - '0' as u32) as nat)
    } else if 'a' <= c && c <= 'f' {
        Some((c as u32 - 'a' as u32 + 10) as nat)
    } else if 'A' <= c && c <= 'F' {
        Some((c as u32 - 'A' as u32 + 10) as nat)
    } else {
        None
    }
}

/// Whether `v` is a Unicode scalar value, the values a `char` can hold.
pub open spec fn is_scalar_value(v: u32) -> bool {
    v < 0xD800 || (0xE000 <= v && v < 0x110000)
}

/// The first index at or after `i` that holds no whitespace.
pub open spec fn skip_ws(s: Seq<char>, i: int) -> int
    decreases s.len() - i,
{
    if 0 <= i < s.len() && is_ws(s[i]) {
        skip_ws(s, i + 1)
    } else {
        i
    }
}

pub proof fn lemma_skip_ws_bounds(s: Seq<char>, i: int)
    requires
        0 <= i <= s.len(),
    ensures
        i <= skip_ws(s, i) <= s.len(),
    decreases s.len() - i,
{
    if i < s.len() && is_ws(s[i]) {
        lemma_skip_ws_bounds(s, i + 1);
    }
}

// ---------------------------------------------------------------------
// Strings
// ---------------------------------------------------------------------
/// The character a single-letter escape stands for, if the letter is a
/// legal escape.
pub open spec fn unescape_char(e: char) -> Option<char> {
    if e == '"' {
        Some('"')
    } else if e == '\\' {
        Some('\\')
    } else if e == '/' {
        Some('/')
    } else if e == 'n' {
        Some('\n')
    } else if e == 't' {
        Some('\t')
    } else if e == 'r' {
        Some('\r')
    } else if e == 'b' {
        Some('\u{8}')
    } else if e == 'f' {
        Some('\u{c}')
    } else {
        None
    }
}

/// The value of the four hexadecimal digits at `i`.
pub open spec fn hex4(s: Seq<char>, i: int) -> Option<nat> {
    if 0 <= i && i + 4 <= s.len() {
        match (hex_val(s[i]), hex_val(s[i + 1]), hex_val(s[i + 2]), hex_val(s[i + 3])) {
            (Some(a), Some(b), Some(c), Some(d)) => Some(a * 4096 + b * 256 + c * 16 + d),
            _ => None,
        }
    } else {
        None
    }
}

/// Parses the remainder of a string literal at `i`, the first index after
/// the opening quote: the character sequence up to the closing quote,
/// with escapes resolved, and the index after the closing quote.
pub open spec fn parse_str_body(s: Seq<char>, i: int) -> Option<(Seq<char>, int)>
    decreases s.len() - i,
{
    if i < 0 || i >= s.len() {
        None
    } else {
        let c = s[i];
        if c == '"' {
            Some((Seq::empty(), i + 1))
        } else if c == '\\' {
            if i + 1 >= s.len() {
                None
            } else {
                let e = s[i + 1];
                if e == 'u' {
                    match hex4(s, i + 2) {
                        Some(v) => if is_scalar_value(v as u32) {
                            match parse_str_body(s, i + 6) {
                                Some((rest, j)) => Some((seq![(v as u32) as char] + rest, j)),
                                None => None,
                            }
                        } else {
                            None
                        },
                        None => None,
                    }
                } else {
                    match unescape_char(e) {
                        Some(c2) => match parse_str_body(s, i + 2) {
                            Some((rest, j)) => Some((seq![c2] + rest, j)),
                            None => None,
                        },
                        None => None,
                    }
                }
            }
        } else if (c as u32) < 0x20 {
            None
        } else {
            match parse_str_body(s, i + 1) {
                Some((rest, j)) => Some((seq![c] + rest, j)),
                None => None,
            }
        }
    }
}

/// Parses a string literal at `i`: the opening quote must stand at `i`.
pub open spec fn parse_string(s: Seq<char>, i: int) -> Option<(Seq<char>, int)> {
    if 0 <= i < s.len() && s[i] == '"' {
        parse_str_body(s, i + 1)
    } else {
        None
    }
}

pub proof fn lemma_parse_str_body_advances(s: Seq<char>, i: int)
    ensures
        parse_str_body(s, i) matches Some(r) ==> i < r.1 <= s.len(),
    decreases s.len() - i,
{
    if 0 <= i < s.len() {
        lemma_parse_str_body_advances(s, i + 1);
        if i + 2 <= s.len() {
            lemma_parse_str_body_advances(s, i + 2);
        }
        if i + 6 <= s.len() {
            lemma_parse_str_body_advances(s, i + 6);
        }
    }
}

pub proof fn lemma_parse_string_advances(s: Seq<char>, i: int)
    ensures
        parse_string(s, i) matches Some(r) ==> i < r.1 <= s.len(),
{
    lemma_parse_str_body_advances(s, i + 1);
}

// ---------------------------------------------------------------------
// Numbers
// ---------------------------------------------------------------------
/// The first index at or after `i` that holds no decimal digit.
pub open spec fn digit_run_end(s: Seq<char>, i: int) -> int
    decreases s.len() - i,
{
    if 0 <= i < s.len() && is_digit(s[i]) {
        digit_run_end(s, i + 1)
    } else {
        i
    }
}

pub proof fn lemma_digit_run_end_bounds(s: Seq<char>, i: int)
    requires
        0 <= i <= s.len(),
    ensures
        i <= digit_run_end(s, i) <= s.len(),
    decreases s.len() - i,
{
    if i < s.len() && is_digit(s[i]) {
        lemma_digit_run_end_bounds(s, i + 1);
    }
}

/// The number a sequence of decimal digits denotes.
pub open spec fn val_of_digits(s: Seq<char>) -> nat
    decreases s.len(),
{
    if s.len() == 0 {
        0
    } else {
        val_of_digits(s.drop_last()) * 10 + digit_val(s.last())
    }
}

/// Parses an unsigned decimal number at `i`: its `u32` value and the
/// index after its last digit. Fails if no digit stands at `i` or the
/// value exceeds the `u32` range.
pub open spec fn parse_u32(s: Seq<char>, i: int) -> Option<(u32, int)> {
    let e = digit_run_end(s, i);
    if e == i {
        None
    } else {
        let v = val_of_digits(s.subrange(i, e));
        if v <= u32::MAX {
            Some((v as u32, e))
        } else {
            None
        }
    }
}

pub proof fn lemma_parse_u32_advances(s: Seq<char>, i: int)
    requires
        0 <= i <= s.len(),
    ensures
        parse_u32(s, i) matches Some(r) ==> i < r.1 <= s.len(),
{
    lemma_digit_run_end_bounds(s, i);
}

// ---------------------------------------------------------------------
// null and the optional scalar fields
// ---------------------------------------------------------------------
/// Whether the literal `null` stands at `i`.
pub open spec fn null_at(s: Seq<char>, i: int) -> bool {
    &&& 0 <= i
    &&& i + 4 <= s.len()
    &&& s[i] == 'n'
    &&& s[i + 1] == 'u'
    &&& s[i + 2] == 'l'
    &&& s[i + 3] == 'l'
}

/// Parses a number or `null` at `i`.
pub open spec fn parse_opt_u32(s: Seq<char>, i: int) -> Option<(Option<u32>, int)> {
    if null_at(s, i) {
        Some((None, i + 4))
    } else {
        match parse_u32(s, i) {
            Some((v, j)) => Some((Some(v), j)),
            None => None,
        }
    }
}

/// Parses a string or `null` at `i`.
pub open spec fn parse_opt_string(s: Seq<char>, i: int) -> Option<(Option<Seq<char>>, int)> {
    if null_at(s, i) {
        Some((None, i + 4))
    } else {
        match parse_string(s, i) {
            Some((v, j)) => Some((Some(v), j)),
            None => None,
        }
    }
}

// ---------------------------------------------------------------------
// Arrays
// ---------------------------------------------------------------------
/// Parses the continuation of a string array after one element: either
/// the closing bracket, or a comma and a further element and again the
/// continuation. `fuel` bounds the recursion and is in practice at least
/// the element count; [`spec_decode`] passes the input length.
pub open spec fn parse_strings_tail(s: Seq<char>, i: int, fuel: nat) -> Option<
    (Seq<Seq<char>>, int),
>
    decreases fuel,
{
    let j = skip_ws(s, i);
    if 0 <= j < s.len() && s[j] == ']' {
        Some((Seq::empty(), j + 1))
    } else if 0 <= j < s.len() && s[j] == ',' && fuel > 0 {
        let k = skip_ws(s, j + 1);
        match parse_string(s, k) {
            Some((v, m)) => match parse_strings_tail(s, m, (fuel - 1) as nat) {
                Some((rest, e)) => Some((seq![v] + rest, e)),
                None => None,
            },
            None => None,
        }
    } else {
        None
    }
}

/// Parses an array of strings at `i`: the opening bracket must stand at
/// `i`.
pub open spec fn parse_strings_arr(s: Seq<char>, i: int, fuel: nat) -> Option<
    (Seq<Seq<char>>, int),
> {
    if 0 <= i < s.len() && s[i] == '[' {
        let j = skip_ws(s, i + 1);
        if 0 <= j < s.len() && s[j] == ']' {
            Some((Seq::empty(), j + 1))
        } else {
            match parse_string(s, j) {
                Some((v, m)) => match parse_strings_tail(s, m, fuel) {
                    Some((rest, e)) => Some((seq![v] + rest, e)),
                    None => None,
                },
                None => None,
            }
        }
    } else {
        None
    }
}

/// Parses the continuation of a number array after one element.
pub open spec fn parse_u32s_tail(s: Seq<char>, i: int, fuel: nat) -> Option<(Seq<u32>, int)>
    decreases fuel,
{
    let j = skip_ws(s, i);
    if 0 <= j < s.len() && s[j] == ']' {
        Some((Seq::empty(), j + 1))
    } else if 0 <= j < s.len() && s[j] == ',' && fuel > 0 {
        let k = skip_ws(s, j + 1);
        match parse_u32(s, k) {
            Some((v, m)) => match parse_u32s_tail(s, m, (fuel - 1) as nat) {
                Some((rest, e)) => Some((seq![v] + rest, e)),
                None => None,
            },
            None => None,
        }
    } else {
        None
    }
}

/// Parses an array of numbers at `i`.
pub open spec fn parse_u32s_arr(s: Seq<char>, i: int, fuel: nat) -> Option<(Seq<u32>, int)> {
    if 0 <= i < s.len() && s[i] == '[' {
        let j = skip_ws(s, i + 1);
        if 0 <= j < s.len() && s[j] == ']' {
            Some((Seq::empty(), j + 1))
        } else {
            match parse_u32(s, j) {
                Some((v, m)) => match parse_u32s_tail(s, m, fuel) {
                    Some((rest, e)) => Some((seq![v] + rest, e)),
                    None => None,
                },
                None => None,
            }
        }
    } else {
        None
    }
}

// ---------------------------------------------------------------------
// The topology value
// ---------------------------------------------------------------------
/// Parses the continuation of a topology mapping after one entry.
pub open spec fn parse_topo_tail(s: Seq<char>, i: int, fuel: nat) -> Option<int>
    decreases fuel,
{
    let j = skip_ws(s, i);
    if 0 <= j < s.len() && s[j] == '}' {
        Some(j + 1)
    } else if 0 <= j < s.len() && s[j] == ',' && fuel > 0 {
        let k = skip_ws(s, j + 1);
        match parse_topo_entry(s, k, fuel) {
            Some(m) => parse_topo_tail(s, m, (fuel - 1) as nat),
            None => None,
        }
    } else {
        None
    }
}

/// Parses one topology entry, a node name mapped to an array of node
/// names, at `i`: the index after the entry.
pub open spec fn parse_topo_entry(s: Seq<char>, i: int, fuel: nat) -> Option<int> {
    match parse_string(s, i) {
        Some((_k, j)) => {
            let j2 = skip_ws(s, j);
            if 0 <= j2 < s.len() && s[j2] == ':' {
                let j3 = skip_ws(s, j2 + 1);
                match parse_strings_arr(s, j3, fuel) {
                    Some((_v, e)) => Some(e),
                    None => None,
                }
            } else {
                None
            }
        },
        None => None,
    }
}

/// Parses a topology mapping at `i` and discards its content, which the
/// protocol deliberately ignores: node names each mapped to an array of
/// node names.
pub open spec fn parse_topo_value(s: Seq<char>, i: int, fuel: nat) -> Option<int> {
    if 0 <= i < s.len() && s[i] == '{' {
        let j = skip_ws(s, i + 1);
        if 0 <= j < s.len() && s[j] == '}' {
            Some(j + 1)
        } else {
            match parse_topo_entry(s, j, fuel) {
                Some(m) => parse_topo_tail(s, m, fuel),
                None => None,
            }
        }
    } else {
        None
    }
}

// ---------------------------------------------------------------------
// Field names and type tags
// ---------------------------------------------------------------------
pub open spec fn key_src() -> Seq<char> {
    seq!['s', 'r', 'c']
}

pub open spec fn key_dest() -> Seq<char> {
    seq!['d', 'e', 's', 't']
}

pub open spec fn key_body() -> Seq<char> {
    seq!['b', 'o', 'd', 'y']
}

pub open spec fn key_msg_id() -> Seq<char> {
    seq!['m', 's', 'g', '_', 'i', 'd']
}

pub open spec fn key_in_reply_to() -> Seq<char> {
    seq!['i', 'n', '_', 'r', 'e', 'p', 'l', 'y', '_', 't', 'o']
}

pub open spec fn key_type() -> Seq<char> {
    seq!['t', 'y', 'p', 'e']
}

pub open spec fn key_echo() -> Seq<char> {
    seq!['e', 'c', 'h', 'o']
}

pub open spec fn key_id() -> Seq<char> {
    seq!['i', 'd']
}

pub open spec fn key_node_id() -> Seq<char> {
    seq!['n', 'o', 'd', 'e', '_', 'i', 'd']
}

pub open spec fn key_node_ids() -> Seq<char> {
    seq!['n', 'o', 'd', 'e', '_', 'i', 'd', 's']
}

pub open spec fn key_message() -> Seq<char> {
    seq!['m', 'e', 's', 's', 'a', 'g', 'e']
}

pub open spec fn key_messages() -> Seq<char> {
    seq!['m', 'e', 's', 's', 'a', 'g', 'e', 's']
}

pub open spec fn key_code() -> Seq<char> {
    seq!['c', 'o', 'd', 'e']
}

pub open spec fn key_text() -> Seq<char> {
    seq!['t', 'e', 'x', 't']
}

pub open spec fn key_topology() -> Seq<char> {
    seq!['t', 'o', 'p', 'o', 'l', 'o', 'g', 'y']
}

pub open spec fn tag_echo() -> Seq<char> {
    seq!['e', 'c', 'h', 'o']
}

pub open spec fn tag_echo_ok() -> Seq<char> {
    seq!['e', 'c', 'h', 'o', '_', 'o', 'k']
}

pub open spec fn tag_generate() -> Seq<char> {
    seq!['g', 'e', 'n', 'e', 'r', 'a', 't', 'e']
}

pub open spec fn tag_generate_ok() -> Seq<char> {
    seq!['g', 'e', 'n', 'e', 'r', 'a', 't', 'e', '_', 'o', 'k']
}

pub open spec fn tag_init() -> Seq<char> {
    seq!['i', 'n', 'i', 't']
}

pub open spec fn tag_init_ok() -> Seq<char> {
    seq!['i', 'n', 'i', 't', '_', 'o', 'k']
}

pub open spec fn tag_broadcast() -> Seq<char> {
    seq!['b', 'r', 'o', 'a', 'd', 'c', 'a', 's', 't']
}

pub open spec fn tag_broadcast_ok() -> Seq<char> {
    seq!['b', 'r', 'o', 'a', 'd', 'c', 'a', 's', 't', '_', 'o', 'k']
}

pub open spec fn tag_read() -> Seq<char> {
    seq!['r', 'e', 'a', 'd']
}

pub open spec fn tag_read_ok() -> Seq<char> {
    seq!['r', 'e', 'a', 'd', '_', 'o', 'k']
}

pub open spec fn tag_topology() -> Seq<char> {
    seq!['t', 'o', 'p', 'o', 'l', 'o', 'g', 'y']
}

pub open spec fn tag_topology_ok() -> Seq<char> {
    seq!['t', 'o', 'p', 'o', 'l', 'o', 'g', 'y', '_', 'o', 'k']
}

pub open spec fn tag_error() -> Seq<char> {
    seq!['e', 'r', 'r', 'o', 'r']
}

// ---------------------------------------------------------------------
// The body object
// ---------------------------------------------------------------------
/// The fields a body object has produced so far while being parsed. The
/// optional scalar fields distinguish a field set to `null` from an
/// absent one only through the `seen` flags, which guard duplicates.
pub struct BodyAcc {
    pub msg_id: Option<u32>,
    pub seen_msg_id: bool,
    pub in_reply_to: Option<u32>,
    pub seen_in_reply_to: bool,
    pub tag: Option<Seq<char>>,
    pub echo: Option<Seq<char>>,
    pub id: Option<Seq<char>>,
    pub node_id: Option<Seq<char>>,
    pub node_ids: Option<Seq<Seq<char>>>,
    pub message: Option<u32>,
    pub messages: Option<Seq<u32>>,
    pub code: Option<u32>,
    pub text: Option<Seq<char>>,
    pub seen_text: bool,
    pub has_topology: bool,
}

/// The accumulator before any field was seen.
pub open spec fn body_acc_empty() -> BodyAcc {
    BodyAcc {
        msg_id: None,
        seen_msg_id: false,
        in_reply_to: None,
        seen_in_reply_to: false,
        tag: None,
        echo: None,
        id: None,
        node_id: None,
        node_ids: None,
        message: None,
        messages: None,
        code: None,
        text: None,
        seen_text: false,
        has_topology: false,
    }
}

/// Parses the value of the body field named `k` at `i` and records it in
/// `acc`. A name seen twice, or one outside the schema, is an error.
pub open spec fn apply_body_field(s: Seq<char>, i: int, k: Seq<char>, acc: BodyAcc) -> Option<
    (BodyAcc, int),
> {
    if k == key_msg_id() {
        if acc.seen_msg_id {
            None
        } else {
            match parse_opt_u32(s, i) {
                Some((v, j)) => Some((BodyAcc { msg_id: v, seen_msg_id: true, ..acc }, j)),
                None => None,
            }
        }
    } else if k == key_in_reply_to() {
        if acc.seen_in_reply_to {
            None
        } else {
            match parse_opt_u32(s, i) {
                Some((v, j)) => Some(
                    (BodyAcc { in_reply_to: v, seen_in_reply_to: true, ..acc }, j),
                ),
                None => None,
            }
        }
    } else if k == key_type() {
        if acc.tag is Some {
            None
        } else {
            match parse_string(s, i) {
                Some((v, j)) => Some((BodyAcc { tag: Some(v), ..acc }, j)),
                None => None,
            }
        }
    } else if k == key_echo() {
        if acc.echo is Some {
            None
        } else {
            match parse_string(s, i) {
                Some((v, j)) => Some((BodyAcc { echo: Some(v), ..acc }, j)),
                None => None,
            }
        }
    } else if k == key_id() {
        if acc.id is Some {
            None
        } else {
            match parse_string(s, i) {
                Some((v, j)) => Some((BodyAcc { id: Some(v), ..acc }, j)),
                None => None,
            }
        }
    } else if k == key_node_id() {
        if acc.node_id is Some {
            None
        } else {
            match parse_string(s, i) {
                Some((v, j)) => Some((BodyAcc { node_id: Some(v), ..acc }, j)),
                None => None,
            }
        }
    } else if k == key_node_ids() {
        if acc.node_ids is Some {
            None
        } else {
            match parse_strings_arr(s, i, s.len()) {
                Some((v, j)) => Some((BodyAcc { node_ids: Some(v), ..acc }, j)),
                None => None,
            }
        }
    } else if k == key_message() {
        if acc.message is Some {
            None
        } else {
            match parse_u32(s, i) {
                Some((v, j)) => Some((BodyAcc { message: Some(v), ..acc }, j)),
                None => None,
            }
        }
    } else if k == key_messages() {
        if acc.messages is Some {
            None
        } else {
            match parse_u32s_arr(s, i, s.len()) {
                Some((v, j)) => Some((BodyAcc { messages: Some(v), ..acc }, j)),
                None => None,
            }
        }
    } else if k == key_code() {
        if acc.code is Some {
            None
        } else {
            match parse_u32(s, i) {
                Some((v, j)) => Some((BodyAcc { code: Some(v), ..acc }, j)),
                None => None,
            }
        }
    } else if k == key_text() {
        if acc.seen_text {
            None
        } else {
            match parse_opt_string(s, i) {
                Some((v, j)) => Some((BodyAcc { text: v, seen_text: true, ..acc }, j)),
                None => None,
            }
        }
    } else if k == key_topology() {
        if acc.has_topology {
            None
        } else {
            match parse_topo_value(s, i, s.len()) {
                Some(j) => Some((BodyAcc { has_topology: true, ..acc }, j)),
                None => None,
            }
        }
    } else {
        None
    }
}

/// Parses one `"name" : value` body field at `i`, the index of the
/// opening quote of the name.
pub open spec fn parse_body_field(s: Seq<char>, i: int, acc: BodyAcc) -> Option<(BodyAcc, int)> {
    match parse_string(s, i) {
        Some((k, j)) => {
            let j2 = skip_ws(s, j);
            if 0 <= j2 < s.len() && s[j2] == ':' {
                let j3 = skip_ws(s, j2 + 1);
                apply_body_field(s, j3, k, acc)
            } else {
                None
            }
        },
        None => None,
    }
}

/// Parses the continuation of a body object after one field: the closing
/// brace, or a comma and a further field. The schema has twelve field
/// names and a name seen twice is an error, so a fixed fuel covers every
/// input.
pub open spec fn parse_body_tail(s: Seq<char>, i: int, acc: BodyAcc, fuel: nat) -> Option<
    (BodyAcc, int),
>
    decreases fuel,
{
    let j = skip_ws(s, i);
    if 0 <= j < s.len() && s[j] == '}' {
        Some((acc, j + 1))
    } else if 0 <= j < s.len() && s[j] == ',' && fuel > 0 {
        let k = skip_ws(s, j + 1);
        match parse_body_field(s, k, acc) {
            Some((acc2, m)) => parse_body_tail(s, m, acc2, (fuel - 1) as nat),
            None => None,
        }
    } else {
        None
    }
}

/// Parses a body object at `i`: the set of fields it holds and the index
/// after the closing brace.
pub open spec fn parse_body_obj(s: Seq<char>, i: int) -> Option<(BodyAcc, int)> {
    if 0 <= i < s.len() && s[i] == '{' {
        let j = skip_ws(s, i + 1);
        if 0 <= j < s.len() && s[j] == '}' {
            Some((body_acc_empty(), j + 1))
        } else {
            match parse_body_field(s, j, body_acc_empty()) {
                Some((acc, m)) => parse_body_tail(s, m, acc, 13),
                None => None,
            }
        }
    } else {
        None
    }
}

/// Whether `acc` holds no payload field besides those the caller allows:
/// a payload kind owns exactly its own fields.
pub open spec fn no_extra_fields(
    acc: BodyAcc,
    allow_echo: bool,
    allow_id: bool,
    allow_node: bool,
    allow_message: bool,
    allow_messages: bool,
    allow_error: bool,
    allow_topology: bool,
) -> bool {
    &&& (allow_echo || acc.echo is None)
    &&& (allow_id || acc.id is None)
    &&& (allow_node || (acc.node_id is None && acc.node_ids is None))
    &&& (allow_message || acc.message is None)
    &&& (allow_messages || acc.messages is None)
    &&& (allow_error || (acc.code is None && !acc.seen_text))
    &&& (allow_topology || !acc.has_topology)
}

/// The payload a parsed body object denotes: the `type` tag picks the
/// kind, the kind's own fields must be present and no others, and an
/// unknown tag is an error. The content of a `topology` field is
/// accepted, with or without the field, and discarded.
pub open spec fn payload_of_acc(acc: BodyAcc) -> Option<PayloadV> {
    match acc.tag {
        None => None,
        Some(t) => {
            if t == tag_echo() {
                match acc.echo {
                    Some(e) => if no_extra_fields(acc, true, false, false, false, false, false, false) {
                        Some(PayloadV::Echo { echo: e })
                    } else {
                        None
                    },
                    None => None,
                }
            } else if t == tag_echo_ok() {
                match acc.echo {
                    Some(e) => if no_extra_fields(acc, true, false, false, false, false, false, false) {
                        Some(PayloadV::EchoOk { echo: e })
                    } else {
                        None
                    },
                    None => None,
                }
            } else if t == tag_generate() {
                if no_extra_fields(acc, false, false, false, false, false, false, false) {
                    Some(PayloadV::Generate)
                } else {
                    None
                }
            } else if t == tag_generate_ok() {
                match acc.id {
                    Some(id) => if no_extra_fields(acc, false, true, false, false, false, false, false) {
                        Some(PayloadV::GenerateOk { id })
                    } else {
                        None
                    },
                    None => None,
                }
            } else if t == tag_init() {
                match (acc.node_id, acc.node_ids) {
                    (Some(n), Some(ns)) => if no_extra_fields(acc, false, false, true, false, false, false, false) {
                        Some(PayloadV::Init { node_id: n, node_ids: ns })
                    } else {
                        None
                    },
                    _ => None,
                }
            } else if t == tag_init_ok() {
                if no_extra_fields(acc, false, false, false, false, false, false, false) {
                    Some(PayloadV::InitOk)
                } else {
                    None
                }
            } else if t == tag_broadcast() {
                match acc.message {
                    Some(m) => if no_extra_fields(acc, false, false, false, true, false, false, false) {
                        Some(PayloadV::Broadcast { message: m })
                    } else {
                        None
                    },
                    None => None,
                }
            } else if t == tag_broadcast_ok() {
                if no_extra_fields(acc, false, false, false, false, false, false, false) {
                    Some(PayloadV::BroadcastOk)
                } else {
                    None
                }
            } else if t == tag_read() {
                if no_extra_fields(acc, false, false, false, false, false, false, false) {
                    Some(PayloadV::Read)
                } else {
                    None
                }
            } else if t == tag_read_ok() {
                match acc.messages {
                    Some(ms) => if no_extra_fields(acc, false, false, false, false, true, false, false) {
                        Some(PayloadV::ReadOk { messages: ms })
                    } else {
                        None
                    },
                    None => None,
                }
            } else if t == tag_topology() {
                if no_extra_fields(acc, false, false, false, false, false, false, true) {
                    Some(PayloadV::Topology)
                } else {
                    None
                }
            } else if t == tag_topology_ok() {
                if no_extra_fields(acc, false, false, false, false, false, false, false) {
                    Some(PayloadV::TopologyOk)
                } else {
                    None
                }
            } else if t == tag_error() {
                match acc.code {
                    Some(cv) => if no_extra_fields(acc, false, false, false, false, false, true, false) {
                        match code_of_value_spec(cv) {
                            Some(c) => Some(PayloadV::Error { code: c, text: acc.text }),
                            None => None,
                        }
                    } else {
                        None
                    },
                    None => None,
                }
            } else {
                None
            }
        },
    }
}

/// The body a parsed body object denotes.
pub open spec fn body_of_acc(acc: BodyAcc) -> Option<BodyV> {
    match payload_of_acc(acc) {
        Some(p) => Some(BodyV { msg_id: acc.msg_id, in_reply_to: acc.in_reply_to, payload: p }),
        None => None,
    }
}

/// Parses a body object at `i` into a body.
pub open spec fn parse_body(s: Seq<char>, i: int) -> Option<(BodyV, int)> {
    match parse_body_obj(s, i) {
        Some((acc, e)) => match body_of_acc(acc) {
            Some(b) => Some((b, e)),
            None => None,
        },
        None => None,
    }
}

// ---------------------------------------------------------------------
// The envelope object
// ---------------------------------------------------------------------
/// The fields an envelope object has produced so far while being parsed.
pub struct EnvAcc {
    pub src: Option<Seq<char>>,
    pub dest: Option<Seq<char>>,
    pub body: Option<BodyV>,
}

/// Parses the value of the envelope field named `k` at `i`.
pub open spec fn apply_env_field(s: Seq<char>, i: int, k: Seq<char>, acc: EnvAcc) -> Option<
    (EnvAcc, int),
> {
    if k == key_src() {
        if acc.src is Some {
            None
        } else {
            match parse_string(s, i) {
                Some((v, j)) => Some((EnvAcc { src: Some(v), ..acc }, j)),
                None => None,
            }
        }
    } else if k == key_dest() {
        if acc.dest is Some {
            None
        } else {
            match parse_string(s, i) {
                Some((v, j)) => Some((EnvAcc { dest: Some(v), ..acc }, j)),
                None => None,
            }
        }
    } else if k == key_body() {
        if acc.body is Some {
            None
        } else {
            match parse_body(s, i) {
                Some((v, j)) => Some((EnvAcc { body: Some(v), ..acc }, j)),
                None => None,
            }
        }
    } else {
        None
    }
}

/// Parses one `"name" : value` envelope field at `i`.
pub open spec fn parse_env_field(s: Seq<char>, i: int, acc: EnvAcc) -> Option<(EnvAcc, int)> {
    match parse_string(s, i) {
        Some((k, j)) => {
            let j2 = skip_ws(s, j);
            if 0 <= j2 < s.len() && s[j2] == ':' {
                let j3 = skip_ws(s, j2 + 1);
                apply_env_field(s, j3, k, acc)
            } else {
                None
            }
        },
        None => None,
    }
}

/// Parses the continuation of an envelope object after one field.
pub open spec fn parse_env_tail(s: Seq<char>, i: int, acc: EnvAcc, fuel: nat) -> Option<
    (EnvAcc, int),
>
    decreases fuel,
{
    let j = skip_ws(s, i);
    if 0 <= j < s.len() && s[j] == '}' {
        Some((acc, j + 1))
    } else if 0 <= j < s.len() && s[j] == ',' && fuel > 0 {
        let k = skip_ws(s, j + 1);
        match parse_env_field(s, k, acc) {
            Some((acc2, m)) => parse_env_tail(s, m, acc2, (fuel - 1) as nat),
            None => None,
        }
    } else {
        None
    }
}

/// Parses an envelope object at `i`: all three fields must be present.
pub open spec fn parse_envelope_at(s: Seq<char>, i: int) -> Option<(EnvelopeV, int)> {
    if 0 <= i < s.len() && s[i] == '{' {
        let j = skip_ws(s, i + 1);
        let first = parse_env_field(s, j, EnvAcc { src: None, dest: None, body: None });
        match first {
            Some((acc, m)) => match parse_env_tail(s, m, acc, 4) {
                Some((acc2, e)) => match (acc2.src, acc2.dest, acc2.body) {
                    (Some(src), Some(dest), Some(body)) => Some(
                        (EnvelopeV { src, dest, body }, e),
                    ),
                    _ => None,
                },
                None => None,
            },
            None => None,
        }
    } else {
        None
    }
}

/// What [`decode`] accepts and returns: one envelope, surrounded by
/// nothing but whitespace.
pub open spec fn spec_decode(s: Seq<char>) -> Option<EnvelopeV> {
    let i = skip_ws(s, 0);
    match parse_envelope_at(s, i) {
        Some((env, e)) => if skip_ws(s, e) == s.len() {
            Some(env)
        } else {
            None
        },
        None => None,
    }
}

// ---------------------------------------------------------------------
// Rendering
// ---------------------------------------------------------------------
/// The character of a decimal digit.
pub open spec fn digit_char(d: nat) -> char {
    if d == 0 {
        '0'
    } else if d == 1 {
        '1'
    } else if d == 2 {
        '2'
    } else if d == 3 {
        '3'
    } else if d == 4 {
        '4'
    } else if d == 5 {
        '5'
    } else if d == 6 {
        '6'
    } else if d == 7 {
        '7'
    } else if d == 8 {
        '8'
    } else {
        '9'
    }
}

/// The character of a hexadecimal digit.
pub open spec fn hex_char(d: nat) -> char {
    if d < 10 {
        digit_char(d)
    } else if d == 10 {
        'a'
    } else if d == 11 {
        'b'
    } else if d == 12 {
        'c'
    } else if d == 13 {
        'd'
    } else if d == 14 {
        'e'
    } else {
        'f'
    }
}

/// The decimal digits of `n`, most significant first, without leading
/// zeros.
pub open spec fn dec_digits(n: nat) -> Seq<char>
    decreases n,
{
    if n < 10 {
        seq![digit_char(n)]
    } else {
        dec_digits(n / 10).push(digit_char(n % 10))
    }
}

/// The rendering of `n` on the wire.
pub open spec fn render_u32(n: u32) -> Seq<char> {
    dec_digits(n as nat)
}

/// The rendering of one string character: quotes and backslashes take a
/// backslash escape, control characters the `\u00XX` form, everything
/// else stands as itself.
pub open spec fn escape_char(c: char) -> Seq<char> {
    if c == '"' {
        seq!['\\', '"']
    } else if c == '\\' {
        seq!['\\', '\\']
    } else if (c as u32) < 0x20 {
        seq![
            '\\',
            'u',
            '0',
            '0',
            hex_char((c as u32 / 16) as nat),
            hex_char((c as u32 % 16) as nat),
        ]
    } else {
        seq![c]
    }
}

/// The rendering of a string's characters, escapes applied.
pub open spec fn escape_string(s: Seq<char>) -> Seq<char>
    decreases s.len(),
{
    if s.len() == 0 {
        Seq::empty()
    } else {
        escape_char(s[0]) + escape_string(s.drop_first())
    }
}

/// The rendering of a string literal, quotes included.
pub open spec fn render_string(s: Seq<char>) -> Seq<char> {
    seq!['"'] + escape_string(s) + seq!['"']
}

/// The rendering of a string array from its second element on, closing
/// bracket included.
pub open spec fn render_strings_tail(vs: Seq<Seq<char>>) -> Seq<char>
    decreases vs.len(),
{
    if vs.len() == 0 {
        seq![']']
    } else {
        seq![','] + render_string(vs[0]) + render_strings_tail(vs.drop_first())
    }
}

/// The rendering of a string array.
pub open spec fn render_strings_arr(vs: Seq<Seq<char>>) -> Seq<char> {
    if vs.len() == 0 {
        seq!['[', ']']
    } else {
        seq!['['] + render_string(vs[0]) + render_strings_tail(vs.drop_first())
    }
}

/// The rendering of a number array from its second element on, closing
/// bracket included.
pub open spec fn render_u32s_tail(vs: Seq<u32>) -> Seq<char>
    decreases vs.len(),
{
    if vs.len() == 0 {
        seq![']']
    } else {
        seq![','] + render_u32(vs[0]) + render_u32s_tail(vs.drop_first())
    }
}

/// The rendering of a number array.
pub open spec fn render_u32s_arr(vs: Seq<u32>) -> Seq<char> {
    if vs.len() == 0 {
        seq!['[', ']']
    } else {
        seq!['['] + render_u32(vs[0]) + render_u32s_tail(vs.drop_first())
    }
}

/// The rendering of a field name, its quotes and the following colon.
pub open spec fn render_key(k: Seq<char>) -> Seq<char> {
    seq!['"'] + k + seq!['"', ':']
}

/// The `type` tag of a payload kind.
pub open spec fn tag_of(p: PayloadV) -> Seq<char> {
    match p {
        PayloadV::Echo { .. } => tag_echo(),
        PayloadV::EchoOk { .. } => tag_echo_ok(),
        PayloadV::Generate => tag_generate(),
        PayloadV::GenerateOk { .. } => tag_generate_ok(),
        PayloadV::Init { .. } => tag_init(),
        PayloadV::InitOk => tag_init_ok(),
        PayloadV::Broadcast { .. } => tag_broadcast(),
        PayloadV::BroadcastOk => tag_broadcast_ok(),
        PayloadV::Read => tag_read(),
        PayloadV::ReadOk { .. } => tag_read_ok(),
        PayloadV::Topology => tag_topology(),
        PayloadV::TopologyOk => tag_topology_ok(),
        PayloadV::Error { .. } => tag_error(),
    }
}

/// The rendering of a payload's own fields, each preceded by a comma; the
/// kinds without fields render nothing.
pub open spec fn render_payload_fields(p: PayloadV) -> Seq<char> {
    match p {
        PayloadV::Echo { echo } => seq![','] + render_key(key_echo()) + render_string(echo),
        PayloadV::EchoOk { echo } => seq![','] + render_key(key_echo()) + render_string(echo),
        PayloadV::Generate => Seq::empty(),
        PayloadV::GenerateOk { id } => seq![','] + render_key(key_id()) + render_string(id),
        PayloadV::Init { node_id, node_ids } => seq![','] + render_key(key_node_id())
            + render_string(node_id) + seq![','] + render_key(key_node_ids())
            + render_strings_arr(node_ids),
        PayloadV::InitOk => Seq::empty(),
        PayloadV::Broadcast { message } => seq![','] + render_key(key_message()) + render_u32(
            message,
        ),
        PayloadV::BroadcastOk => Seq::empty(),
        PayloadV::Read => Seq::empty(),
        PayloadV::ReadOk { messages } => seq![','] + render_key(key_messages())
            + render_u32s_arr(messages),
        PayloadV::Topology => Seq::empty(),
        PayloadV::TopologyOk => Seq::empty(),
        PayloadV::Error { code, text } => (seq![','] + render_key(key_code()) + render_u32(
            code_value_spec(code),
        )) + (match text {
            Some(t) => seq![','] + render_key(key_text()) + render_string(t),
            None => Seq::empty(),
        }),
    }
}

/// The rendering of a body object: the `type` tag first, then the
/// correlation ids where present, then the payload's own fields.
pub open spec fn render_body(b: BodyV) -> Seq<char> {
    seq!['{'] + render_key(key_type()) + render_string(tag_of(b.payload)) + (match b.msg_id {
        Some(n) => seq![','] + render_key(key_msg_id()) + render_u32(n),
        None => Seq::empty(),
    }) + (match b.in_reply_to {
        Some(n) => seq![','] + render_key(key_in_reply_to()) + render_u32(n),
        None => Seq::empty(),
    }) + render_payload_fields(b.payload) + seq!['}']
}

/// What [`encode`] produces: the canonical rendering of an envelope, one
/// line with no whitespace and absent optional fields omitted.
pub open spec fn spec_encode(e: EnvelopeV) -> Seq<char> {
    seq!['{'] + render_key(key_src()) + render_string(e.src) + seq![','] + render_key(key_dest())
        + render_string(e.dest) + seq![','] + render_key(key_body()) + render_body(e.body)
        + seq!['}']
}

// ---------------------------------------------------------------------
// Position bounds of the spec parsers
// ---------------------------------------------------------------------
pub proof fn lemma_parse_strings_tail_bounds(s: Seq<char>, i: int, fuel: nat)
    requires
        0 <= i <= s.len(),
    ensures
        parse_strings_tail(s, i, fuel) matches Some(r) ==> i < r.1 <= s.len(),
    decreases fuel,
{
    lemma_skip_ws_bounds(s, i);
    let j = skip_ws(s, i);
    if 0 <= j < s.len() && s[j] == ']' {
    } else if 0 <= j < s.len() && s[j] == ',' && fuel > 0 {
        lemma_skip_ws_bounds(s, j + 1);
        let k = skip_ws(s, j + 1);
        lemma_parse_string_advances(s, k);
        match parse_string(s, k) {
            Some(p) => lemma_parse_strings_tail_bounds(s, p.1, (fuel - 1) as nat),
            None => {},
        }
    }
}

pub proof fn lemma_parse_strings_arr_bounds(s: Seq<char>, i: int, fuel: nat)
    requires
        0 <= i <= s.len(),
    ensures
        parse_strings_arr(s, i, fuel) matches Some(r) ==> i < r.1 <= s.len(),
{
    if 0 <= i < s.len() && s[i] == '[' {
        lemma_skip_ws_bounds(s, i + 1);
        let j = skip_ws(s, i + 1);
        lemma_parse_string_advances(s, j);
        match parse_string(s, j) {
            Some(p) => lemma_parse_strings_tail_bounds(s, p.1, fuel),
            None => {},
        }
    }
}

pub proof fn lemma_parse_u32s_tail_bounds(s: Seq<char>, i: int, fuel: nat)
    requires
        0 <= i <= s.len(),
    ensures
        parse_u32s_tail(s, i, fuel) matches Some(r) ==> i < r.1 <= s.len(),
    decreases fuel,
{
    lemma_skip_ws_bounds(s, i);
    let j = skip_ws(s, i);
    if 0 <= j < s.len() && s[j] == ']' {
    } else if 0 <= j < s.len() && s[j] == ',' && fuel > 0 {
        lemma_skip_ws_bounds(s, j + 1);
        let k = skip_ws(s, j + 1);
        lemma_parse_u32_advances(s, k);
        match parse_u32(s, k) {
            Some(p) => lemma_parse_u32s_tail_bounds(s, p.1, (fuel - 1) as nat),
            None => {},
        }
    }
}

pub proof fn lemma_parse_topo_entry_bounds(s: Seq<char>, i: int, fuel: nat)
    requires
        0 <= i <= s.len(),
    ensures
        parse_topo_entry(s, i, fuel) matches Some(e) ==> i < e <= s.len(),
{
    lemma_parse_string_advances(s, i);
    match parse_string(s, i) {
        Some(p) => {
            lemma_skip_ws_bounds(s, p.1);
            let j2 = skip_ws(s, p.1);
            if 0 <= j2 < s.len() && s[j2] == ':' {
                lemma_skip_ws_bounds(s, j2 + 1);
                let j3 = skip_ws(s, j2 + 1);
                lemma_parse_strings_arr_bounds(s, j3, fuel);
            }
        },
        None => {},
    }
}

pub proof fn lemma_parse_topo_tail_bounds(s: Seq<char>, i: int, fuel: nat)
    requires
        0 <= i <= s.len(),
    ensures
        parse_topo_tail(s, i, fuel) matches Some(e) ==> i < e <= s.len(),
    decreases fuel,
{
    lemma_skip_ws_bounds(s, i);
    let j = skip_ws(s, i);
    if 0 <= j < s.len() && s[j] == '}' {
    } else if 0 <= j < s.len() && s[j] == ',' && fuel > 0 {
        lemma_skip_ws_bounds(s, j + 1);
        let k = skip_ws(s, j + 1);
        lemma_parse_topo_entry_bounds(s, k, fuel);
        match parse_topo_entry(s, k, fuel) {
            Some(m) => lemma_parse_topo_tail_bounds(s, m, (fuel - 1) as nat),
            None => {},
        }
    }
}

// ---------------------------------------------------------------------
// Trusted items of the decoder and encoder
// ---------------------------------------------------------------------
/// Relies on `char::from_u32`, documented to return the character of a
/// Unicode scalar value and `None` for surrogate or out-of-range values.
pub assume_specification[ char::from_u32 ](v: u32) -> (r: Option<char>)
    ensures
        r is Some <==> is_scalar_value(v),
        r matches Some(c) ==> c as u32 == v,
;

/// Relies on `String`'s `FromIterator<char>` impl: collecting characters
/// builds the string of exactly those characters, in order.
#[verifier::external_body]
fn string_from_chars(v: &Vec<char>) -> (r: String)
    ensures
        r@ == v@,
{
    v.iter().collect()
}

// ---------------------------------------------------------------------
// The decoder
// ---------------------------------------------------------------------
/// The characters of a string slice, as a vector.
fn chars_of(t: &str) -> (r: Vec<char>)
    ensures
        r@ == t@,
{
    let n = t.unicode_len();
    let mut r: Vec<char> = Vec::new();
    let mut i: usize = 0;
    while i < n
        invariant
            n == t@.len(),
            i <= n,
            r@ == t@.subrange(0, i as int),
        decreases n - i,
    {
        let c = t.get_char(i);
        r.push(c);
        proof {
            assert(r@ =~= t@.subrange(0, i as int + 1));
        }
        i += 1;
    }
    proof {
        assert(r@ =~= t@);
    }
    r
}

/// Whether the characters of `v` are exactly those of `t`.
fn chars_eq_str(v: &Vec<char>, t: &str) -> (r: bool)
    ensures
        r == (v@ == t@),
{
    let n = t.unicode_len();
    if v.len() != n {
        proof {
            assert(v@ != t@);
        }
        return false;
    }
    let mut i: usize = 0;
    while i < n
        invariant
            n == t@.len(),
            v@.len() == n,
            i <= n,
            forall|m: int| 0 <= m < i ==> v@[m] == t@[m],
        decreases n - i,
    {
        if v[i] != t.get_char(i) {
            proof {
                assert(v@[i as int] != t@[i as int]);
            }
            return false;
        }
        i += 1;
    }
    proof {
        assert(v@ =~= t@);
    }
    true
}

fn skip_ws_x(s: &Vec<char>, i: usize) -> (r: usize)
    requires
        i <= s.len(),
    ensures
        r == skip_ws(s@, i as int),
        i <= r <= s.len(),
    decreases s.len() - i,
{
    if i < s.len() && (s[i] == ' ' || s[i] == '\t' || s[i] == '\n' || s[i] == '\r') {
        skip_ws_x(s, i + 1)
    } else {
        i
    }
}

fn hex_val_x(c: char) -> (r: Option<u32>)
    ensures
        (match r {
            Some(v) => hex_val(c) == Some(v as nat) && v < 16,
            None => hex_val(c) is None,
        }),
{
    if '0' <= c && c <= '9' {
        Some(c as u32 - '0' as u32)
    } else if 'a' <= c && c <= 'f' {
        Some(c as u32 - 'a' as u32 + 10)
    } else if 'A' <= c && c <= 'F' {
        Some(c as u32 - 'A' as u32 + 10)
    } else {
        None
    }
}

fn hex4_x(s: &Vec<char>, i: usize) -> (r: Option<u32>)
    requires
        i <= s.len(),
    ensures
        (match r {
            Some(v) => hex4(s@, i as int) == Some(v as nat) && v < 0x10000 && i + 4 <= s.len(),
            None => hex4(s@, i as int) is None,
        }),
{
    if s.len() >= 4 && i <= s.len() - 4 {
        let a = hex_val_x(s[i]);
        let b = hex_val_x(s[i + 1]);
        let c = hex_val_x(s[i + 2]);
        let d = hex_val_x(s[i + 3]);
        match (a, b, c, d) {
            (Some(a), Some(b), Some(c), Some(d)) => Some(a * 4096 + b * 256 + c * 16 + d),
            _ => None,
        }
    } else {
        None
    }
}

fn parse_str_body_x(s: &Vec<char>, i: usize) -> (r: Option<(Vec<char>, usize)>)
    requires
        i <= s.len(),
    ensures
        (match r {
            Some(v) => parse_str_body(s@, i as int) == Some((v.0@, v.1 as int)) && v.1 <= s.len(),
            None => parse_str_body(s@, i as int) is None,
        }),
    decreases s.len() - i,
{
    if i >= s.len() {
        None
    } else {
        let c = s[i];
        if c == '"' {
            let v: Vec<char> = Vec::new();
            proof {
                assert(v@ =~= Seq::<char>::empty());
            }
            Some((v, i + 1))
        } else if c == '\\' {
            if i + 1 >= s.len() {
                None
            } else {
                let e = s[i + 1];
                if e == 'u' {
                    match hex4_x(s, i + 2) {
                        Some(v) => {
                            match char::from_u32(v) {
                                Some(c2) => {
                                    proof {
                                        vstd::utf8::char_u32_cast(c2, v);
                                    }
                                    match parse_str_body_x(s, i + 6) {
                                        Some((mut rest, j)) => {
                                            let ghost r0 = rest@;
                                            rest.insert(0, c2);
                                            proof {
                                                assert(rest@ =~= seq![c2] + r0);
                                            }
                                            Some((rest, j))
                                        },
                                        None => None,
                                    }
                                },
                                None => None,
                            }
                        },
                        None => None,
                    }
                } else {
                    let c2opt = unescape_char_x(e);
                    match c2opt {
                        Some(c2) => {
                            match parse_str_body_x(s, i + 2) {
                                Some((mut rest, j)) => {
                                    let ghost r0 = rest@;
                                    rest.insert(0, c2);
                                    proof {
                                        assert(rest@ =~= seq![c2] + r0);
                                    }
                                    Some((rest, j))
                                },
                                None => None,
                            }
                        },
                        None => None,
                    }
                }
            }
        } else if (c as u32) < 0x20 {
            None
        } else {
            match parse_str_body_x(s, i + 1) {
                Some((mut rest, j)) => {
                    let ghost r0 = rest@;
                    rest.insert(0, c);
                    proof {
                        assert(rest@ =~= seq![c] + r0);
                    }
                    Some((rest, j))
                },
                None => None,
            }
        }
    }
}

fn unescape_char_x(e: char) -> (r: Option<char>)
    ensures
        r == unescape_char(e),
{
    if e == '"' {
        Some('"')
    } else if e == '\\' {
        Some('\\')
    } else if e == '/' {
        Some('/')
    } else if e == 'n' {
        Some('\n')
    } else if e == 't' {
        Some('\t')
    } else if e == 'r' {
        Some('\r')
    } else if e == 'b' {
        Some('\u{8}')
    } else if e == 'f' {
        Some('\u{c}')
    } else {
        None
    }
}

fn parse_string_x(s: &Vec<char>, i: usize) -> (r: Option<(Vec<char>, usize)>)
    requires
        i <= s.len(),
    ensures
        (match r {
            Some(v) => parse_string(s@, i as int) == Some((v.0@, v.1 as int)) && v.1 <= s.len(),
            None => parse_string(s@, i as int) is None,
        }),
{
    if i < s.len() && s[i] == '"' {
        parse_str_body_x(s, i + 1)
    } else {
        None
    }
}

proof fn lemma_digit_run_is(s: Seq<char>, i: int, k: int)
    requires
        0 <= i <= k <= s.len(),
        forall|m: int| i <= m < k ==> is_digit(s[m]),
        k == s.len() || !is_digit(s[k]),
    ensures
        digit_run_end(s, i) == k,
    decreases k - i,
{
    if i < k {
        lemma_digit_run_is(s, i + 1, k);
    }
}

fn parse_u32_x(s: &Vec<char>, i: usize) -> (r: Option<(u32, usize)>)
    requires
        i <= s.len(),
    ensures
        (match r {
            Some(v) => parse_u32(s@, i as int) == Some((v.0, v.1 as int)) && v.1 <= s.len(),
            None => parse_u32(s@, i as int) is None,
        }),
{
    let ghost gs = s@;
    let mut k = i;
    let mut acc: u64 = 0;
    let mut over = false;
    while k < s.len() && '0' <= s[k] && s[k] <= '9'
        invariant
            i <= k <= s.len(),
            gs == s@,
            forall|m: int| i <= m < k ==> is_digit(gs[m]),
            !over ==> acc == val_of_digits(gs.subrange(i as int, k as int)) && acc <= u32::MAX,
            over ==> val_of_digits(gs.subrange(i as int, k as int)) > u32::MAX,
        decreases s.len() - k,
    {
        let c = s[k];
        let d: u64 = (c as u32 - '0' as u32) as u64;
        proof {
            assert(gs.subrange(i as int, k as int + 1).drop_last() =~= gs.subrange(
                i as int,
                k as int,
            ));
            assert(gs.subrange(i as int, k as int + 1).last() == gs[k as int]);
            assert(digit_val(gs[k as int]) == d as nat);
        }
        if !over {
            let t: u64 = acc * 10 + d;
            if t > 0xFFFF_FFFF {
                over = true;
            } else {
                acc = t;
            }
        } else {
            proof {
                let v0 = val_of_digits(gs.subrange(i as int, k as int));
                assert(val_of_digits(gs.subrange(i as int, k as int + 1)) == v0 * 10 + digit_val(
                    gs[k as int],
                ));
                assert(v0 * 10 >= v0);
            }
        }
        k += 1;
    }
    proof {
        lemma_digit_run_is(gs, i as int, k as int);
        assert(gs.subrange(i as int, i as int) =~= Seq::<char>::empty());
    }
    if k == i {
        None
    } else if over {
        None
    } else {
        Some((acc as u32, k))
    }
}

fn null_at_x(s: &Vec<char>, i: usize) -> (r: bool)
    requires
        i <= s.len(),
    ensures
        r == null_at(s@, i as int),
{
    if s.len() >= 4 && i <= s.len() - 4 {
        s[i] == 'n' && s[i + 1] == 'u' && s[i + 2] == 'l' && s[i + 3] == 'l'
    } else {
        false
    }
}

fn parse_opt_u32_x(s: &Vec<char>, i: usize) -> (r: Option<(Option<u32>, usize)>)
    requires
        i <= s.len(),
    ensures
        (match r {
            Some(v) => parse_opt_u32(s@, i as int) == Some((v.0, v.1 as int)) && v.1 <= s.len(),
            None => parse_opt_u32(s@, i as int) is None,
        }),
{
    if null_at_x(s, i) {
        Some((None, i + 4))
    } else {
        match parse_u32_x(s, i) {
            Some((v, j)) => Some((Some(v), j)),
            None => None,
        }
    }
}

fn parse_opt_string_x(s: &Vec<char>, i: usize) -> (r: Option<(Option<String>, usize)>)
    requires
        i <= s.len(),
    ensures
        (match r {
            Some(v) => parse_opt_string(s@, i as int) matches Some(w) && w.1 == v.1 as int && v.1
                <= s.len() && (match (v.0, w.0) {
                (Some(a), Some(b)) => a@ == b,
                (None, None) => true,
                _ => false,
            }),
            None => parse_opt_string(s@, i as int) is None,
        }),
{
    if null_at_x(s, i) {
        Some((None, i + 4))
    } else {
        match parse_string_x(s, i) {
            Some((v, j)) => Some((Some(string_from_chars(&v)), j)),
            None => None,
        }
    }
}

fn parse_strings_tail_x(s: &Vec<char>, i: usize, fuel: usize) -> (r: Option<(Vec<String>, usize)>)
    requires
        i <= s.len(),
    ensures
        (match r {
            Some(v) => parse_strings_tail(s@, i as int, fuel as nat) == Some(
                (v.0.deep_view(), v.1 as int),
            ) && v.1 <= s.len(),
            None => parse_strings_tail(s@, i as int, fuel as nat) is None,
        }),
    decreases fuel,
{
    let j = skip_ws_x(s, i);
    if j < s.len() && s[j] == ']' {
        let v: Vec<String> = Vec::new();
        proof {
            assert(v.deep_view() =~= Seq::<Seq<char>>::empty());
        }
        Some((v, j + 1))
    } else if j < s.len() && s[j] == ',' && fuel > 0 {
        let k = skip_ws_x(s, j + 1);
        match parse_string_x(s, k) {
            Some((vch, m)) => {
                let v0 = string_from_chars(&vch);
                match parse_strings_tail_x(s, m, fuel - 1) {
                    Some((mut rest, e)) => {
                        let ghost r0 = rest.deep_view();
                        rest.insert(0, v0);
                        proof {
                            assert(rest.deep_view() =~= seq![vch@] + r0);
                        }
                        Some((rest, e))
                    },
                    None => None,
                }
            },
            None => None,
        }
    } else {
        None
    }
}

fn parse_strings_arr_x(s: &Vec<char>, i: usize, fuel: usize) -> (r: Option<(Vec<String>, usize)>)
    requires
        i <= s.len(),
    ensures
        (match r {
            Some(v) => parse_strings_arr(s@, i as int, fuel as nat) == Some(
                (v.0.deep_view(), v.1 as int),
            ) && v.1 <= s.len(),
            None => parse_strings_arr(s@, i as int, fuel as nat) is None,
        }),
{
    if i < s.len() && s[i] == '[' {
        let j = skip_ws_x(s, i + 1);
        if j < s.len() && s[j] == ']' {
            let v: Vec<String> = Vec::new();
            proof {
                assert(v.deep_view() =~= Seq::<Seq<char>>::empty());
            }
            Some((v, j + 1))
        } else {
            match parse_string_x(s, j) {
                Some((vch, m)) => {
                    let v0 = string_from_chars(&vch);
                    match parse_strings_tail_x(s, m, fuel) {
                        Some((mut rest, e)) => {
                            let ghost r0 = rest.deep_view();
                            rest.insert(0, v0);
                            proof {
                                assert(rest.deep_view() =~= seq![vch@] + r0);
                            }
                            Some((rest, e))
                        },
                        None => None,
                    }
                },
                None => None,
            }
        }
    } else {
        None
    }
}

fn parse_u32s_tail_x(s: &Vec<char>, i: usize, fuel: usize) -> (r: Option<(Vec<u32>, usize)>)
    requires
        i <= s.len(),
    ensures
        (match r {
            Some(v) => parse_u32s_tail(s@, i as int, fuel as nat) == Some((v.0@, v.1 as int))
                && v.1 <= s.len(),
            None => parse_u32s_tail(s@, i as int, fuel as nat) is None,
        }),
    decreases fuel,
{
    let j = skip_ws_x(s, i);
    if j < s.len() && s[j] == ']' {
        let v: Vec<u32> = Vec::new();
        proof {
            assert(v@ =~= Seq::<u32>::empty());
        }
        Some((v, j + 1))
    } else if j < s.len() && s[j] == ',' && fuel > 0 {
        let k = skip_ws_x(s, j + 1);
        match parse_u32_x(s, k) {
            Some((v0, m)) => {
                match parse_u32s_tail_x(s, m, fuel - 1) {
                    Some((mut rest, e)) => {
                        let ghost r0 = rest@;
                        rest.insert(0, v0);
                        proof {
                            assert(rest@ =~= seq![v0] + r0);
                        }
                        Some((rest, e))
                    },
                    None => None,
                }
            },
            None => None,
        }
    } else {
        None
    }
}

fn parse_u32s_arr_x(s: &Vec<char>, i: usize, fuel: usize) -> (r: Option<(Vec<u32>, usize)>)
    requires
        i <= s.len(),
    ensures
        (match r {
            Some(v) => parse_u32s_arr(s@, i as int, fuel as nat) == Some((v.0@, v.1 as int))
                && v.1 <= s.len(),
            None => parse_u32s_arr(s@, i as int, fuel as nat) is None,
        }),
{
    if i < s.len() && s[i] == '[' {
        let j = skip_ws_x(s, i + 1);
        if j < s.len() && s[j] == ']' {
            let v: Vec<u32> = Vec::new();
            proof {
                assert(v@ =~= Seq::<u32>::empty());
            }
            Some((v, j + 1))
        } else {
            match parse_u32_x(s, j) {
                Some((v0, m)) => {
                    match parse_u32s_tail_x(s, m, fuel) {
                        Some((mut rest, e)) => {
                            let ghost r0 = rest@;
                            rest.insert(0, v0);
                            proof {
                                assert(rest@ =~= seq![v0] + r0);
                            }
                            Some((rest, e))
                        },
                        None => None,
                    }
                },
                None => None,
            }
        }
    } else {
        None
    }
}

fn parse_topo_entry_x(s: &Vec<char>, i: usize, fuel: usize) -> (r: Option<usize>)
    requires
        i <= s.len(),
    ensures
        (match r {
            Some(e) => parse_topo_entry(s@, i as int, fuel as nat) == Some(e as int) && e
                <= s.len(),
            None => parse_topo_entry(s@, i as int, fuel as nat) is None,
        }),
{
    match parse_string_x(s, i) {
        Some((_k, j)) => {
            let j2 = skip_ws_x(s, j);
            if j2 < s.len() && s[j2] == ':' {
                let j3 = skip_ws_x(s, j2 + 1);
                match parse_strings_arr_x(s, j3, fuel) {
                    Some((_v, e)) => Some(e),
                    None => None,
                }
            } else {
                None
            }
        },
        None => None,
    }
}

fn parse_topo_tail_x(s: &Vec<char>, i: usize, fuel: usize) -> (r: Option<usize>)
    requires
        i <= s.len(),
    ensures
        (match r {
            Some(e) => parse_topo_tail(s@, i as int, fuel as nat) == Some(e as int) && e
                <= s.len(),
            None => parse_topo_tail(s@, i as int, fuel as nat) is None,
        }),
    decreases fuel,
{
    let j = skip_ws_x(s, i);
    if j < s.len() && s[j] == '}' {
        Some(j + 1)
    } else if j < s.len() && s[j] == ',' && fuel > 0 {
        let k = skip_ws_x(s, j + 1);
        match parse_topo_entry_x(s, k, fuel) {
            Some(m) => parse_topo_tail_x(s, m, fuel - 1),
            None => None,
        }
    } else {
        None
    }
}

fn parse_topo_value_x(s: &Vec<char>, i: usize, fuel: usize) -> (r: Option<usize>)
    requires
        i <= s.len(),
    ensures
        (match r {
            Some(e) => parse_topo_value(s@, i as int, fuel as nat) == Some(e as int) && e
                <= s.len(),
            None => parse_topo_value(s@, i as int, fuel as nat) is None,
        }),
{
    if i < s.len() && s[i] == '{' {
        let j = skip_ws_x(s, i + 1);
        if j < s.len() && s[j] == '}' {
            Some(j + 1)
        } else {
            match parse_topo_entry_x(s, j, fuel) {
                Some(m) => parse_topo_tail_x(s, m, fuel),
                None => None,
            }
        }
    } else {
        None
    }
}

// ---------------------------------------------------------------------
// The body and envelope objects, executable side
// ---------------------------------------------------------------------
/// The model of an optional string.
pub open spec fn opt_str_view(o: Option<String>) -> Option<Seq<char>> {
    match o {
        Some(s) => Some(s@),
        None => None,
    }
}

/// The model of an optional string vector.
pub open spec fn opt_strs_view(o: Option<Vec<String>>) -> Option<Seq<Seq<char>>> {
    match o {
        Some(v) => Some(v.deep_view()),
        None => None,
    }
}

/// The model of an optional number vector.
pub open spec fn opt_u32s_view(o: Option<Vec<u32>>) -> Option<Seq<u32>> {
    match o {
        Some(v) => Some(v@),
        None => None,
    }
}

/// The model of an optional character vector.
pub open spec fn opt_chars_view(o: Option<Vec<char>>) -> Option<Seq<char>> {
    match o {
        Some(v) => Some(v@),
        None => None,
    }
}

struct BodyAccX {
    msg_id: Option<u32>,
    seen_msg_id: bool,
    in_reply_to: Option<u32>,
    seen_in_reply_to: bool,
    tag: Option<Vec<char>>,
    echo: Option<String>,
    id: Option<String>,
    node_id: Option<String>,
    node_ids: Option<Vec<String>>,
    message: Option<u32>,
    messages: Option<Vec<u32>>,
    code: Option<u32>,
    text: Option<String>,
    seen_text: bool,
    has_topology: bool,
}

impl View for BodyAccX {
    type V = BodyAcc;

    closed spec fn view(&self) -> BodyAcc {
        BodyAcc {
            msg_id: self.msg_id,
            seen_msg_id: self.seen_msg_id,
            in_reply_to: self.in_reply_to,
            seen_in_reply_to: self.seen_in_reply_to,
            tag: opt_chars_view(self.tag),
            echo: opt_str_view(self.echo),
            id: opt_str_view(self.id),
            node_id: opt_str_view(self.node_id),
            node_ids: opt_strs_view(self.node_ids),
            message: self.message,
            messages: opt_u32s_view(self.messages),
            code: self.code,
            text: opt_str_view(self.text),
            seen_text: self.seen_text,
            has_topology: self.has_topology,
        }
    }
}

fn body_acc_empty_x() -> (r: BodyAccX)
    ensures
        r@ == body_acc_empty(),
{
    BodyAccX {
        msg_id: None,
        seen_msg_id: false,
        in_reply_to: None,
        seen_in_reply_to: false,
        tag: None,
        echo: None,
        id: None,
        node_id: None,
        node_ids: None,
        message: None,
        messages: None,
        code: None,
        text: None,
        seen_text: false,
        has_topology: false,
    }
}

fn apply_body_field_x(s: &Vec<char>, i: usize, k: &Vec<char>, acc: BodyAccX) -> (r: Option<
    (BodyAccX, usize),
>)
    requires
        i <= s.len(),
    ensures
        (match r {
            Some(v) => apply_body_field(s@, i as int, k@, acc@) == Some((v.0@, v.1 as int)) && v.1
                <= s.len(),
            None => apply_body_field(s@, i as int, k@, acc@) is None,
        }),
{
    if chars_eq_str(k, "msg_id") {
        proof {
            reveal_strlit("msg_id");
            assert("msg_id"@ =~= key_msg_id());
        }
        if acc.seen_msg_id {
            None
        } else {
            match parse_opt_u32_x(s, i) {
                Some((v, j)) => Some((BodyAccX { msg_id: v, seen_msg_id: true, ..acc }, j)),
                None => None,
            }
        }
    } else if chars_eq_str(k, "in_reply_to") {
        proof {
            reveal_strlit("msg_id");
            reveal_strlit("in_reply_to");
            assert("in_reply_to"@ =~= key_in_reply_to());
            assert(k@ != key_msg_id());
        }
        if acc.seen_in_reply_to {
            None
        } else {
            match parse_opt_u32_x(s, i) {
                Some((v, j)) => Some(
                    (BodyAccX { in_reply_to: v, seen_in_reply_to: true, ..acc }, j),
                ),
                None => None,
            }
        }
    } else if chars_eq_str(k, "type") {
        proof {
            reveal_strlit("msg_id");
            reveal_strlit("in_reply_to");
            reveal_strlit("type");
            assert("type"@ =~= key_type());
            assert(k@ != key_msg_id() && k@ != key_in_reply_to());
        }
        if acc.tag.is_some() {
            None
        } else {
            match parse_string_x(s, i) {
                Some((v, j)) => Some((BodyAccX { tag: Some(v), ..acc }, j)),
                None => None,
            }
        }
    } else if chars_eq_str(k, "echo") {
        proof {
            reveal_strlit("msg_id");
            reveal_strlit("in_reply_to");
            reveal_strlit("type");
            reveal_strlit("echo");
            assert("echo"@ =~= key_echo());
            assert(k@ != key_msg_id() && k@ != key_in_reply_to() && k@ != key_type());
        }
        if acc.echo.is_some() {
            None
        } else {
            match parse_string_x(s, i) {
                Some((v, j)) => Some((BodyAccX { echo: Some(string_from_chars(&v)), ..acc }, j)),
                None => None,
            }
        }
    } else if chars_eq_str(k, "id") {
        proof {
            reveal_strlit("msg_id");
            reveal_strlit("in_reply_to");
            reveal_strlit("type");
            reveal_strlit("echo");
            reveal_strlit("id");
            assert("id"@ =~= key_id());
            assert(k@ != key_msg_id() && k@ != key_in_reply_to() && k@ != key_type() && k@
                != key_echo());
        }
        if acc.id.is_some() {
            None
        } else {
            match parse_string_x(s, i) {
                Some((v, j)) => Some((BodyAccX { id: Some(string_from_chars(&v)), ..acc }, j)),
                None => None,
            }
        }
    } else if chars_eq_str(k, "node_id") {
        proof {
            reveal_strlit("msg_id");
            reveal_strlit("in_reply_to");
            reveal_strlit("type");
            reveal_strlit("echo");
            reveal_strlit("id");
            reveal_strlit("node_id");
            assert("node_id"@ =~= key_node_id());
            assert(k@ != key_msg_id() && k@ != key_in_reply_to() && k@ != key_type() && k@
                != key_echo() && k@ != key_id());
        }
        if acc.node_id.is_some() {
            None
        } else {
            match parse_string_x(s, i) {
                Some((v, j)) => Some(
                    (BodyAccX { node_id: Some(string_from_chars(&v)), ..acc }, j),
                ),
                None => None,
            }
        }
    } else if chars_eq_str(k, "node_ids") {
        proof {
            reveal_strlit("msg_id");
            reveal_strlit("in_reply_to");
            reveal_strlit("type");
            reveal_strlit("echo");
            reveal_strlit("id");
            reveal_strlit("node_id");
            reveal_strlit("node_ids");
            assert("node_ids"@ =~= key_node_ids());
            assert(k@ != key_msg_id() && k@ != key_in_reply_to() && k@ != key_type() && k@
                != key_echo() && k@ != key_id() && k@ != key_node_id());
        }
        if acc.node_ids.is_some() {
            None
        } else {
            match parse_strings_arr_x(s, i, s.len()) {
                Some((v, j)) => Some((BodyAccX { node_ids: Some(v), ..acc }, j)),
                None => None,
            }
        }
    } else if chars_eq_str(k, "message") {
        proof {
            reveal_strlit("msg_id");
            reveal_strlit("in_reply_to");
            reveal_strlit("type");
            reveal_strlit("echo");
            reveal_strlit("id");
            reveal_strlit("node_id");
            reveal_strlit("node_ids");
            reveal_strlit("message");
            assert("message"@ =~= key_message());
            assert(k@ != key_msg_id() && k@ != key_in_reply_to() && k@ != key_type() && k@
                != key_echo() && k@ != key_id() && k@ != key_node_id() && k@ != key_node_ids());
        }
        if acc.message.is_some() {
            None
        } else {
            match parse_u32_x(s, i) {
                Some((v, j)) => Some((BodyAccX { message: Some(v), ..acc }, j)),
                None => None,
            }
        }
    } else if chars_eq_str(k, "messages") {
        proof {
            reveal_strlit("msg_id");
            reveal_strlit("in_reply_to");
            reveal_strlit("type");
            reveal_strlit("echo");
            reveal_strlit("id");
            reveal_strlit("node_id");
            reveal_strlit("node_ids");
            reveal_strlit("message");
            reveal_strlit("messages");
            assert("messages"@ =~= key_messages());
            assert(k@ != key_msg_id() && k@ != key_in_reply_to() && k@ != key_type() && k@
                != key_echo() && k@ != key_id() && k@ != key_node_id() && k@ != key_node_ids()
                && k@ != key_message());
        }
        if acc.messages.is_some() {
            None
        } else {
            match parse_u32s_arr_x(s, i, s.len()) {
                Some((v, j)) => Some((BodyAccX { messages: Some(v), ..acc }, j)),
                None => None,
            }
        }
    } else if chars_eq_str(k, "code") {
        proof {
            reveal_strlit("msg_id");
            reveal_strlit("in_reply_to");
            reveal_strlit("type");
            reveal_strlit("echo");
            reveal_strlit("id");
            reveal_strlit("node_id");
            reveal_strlit("node_ids");
            reveal_strlit("message");
            reveal_strlit("messages");
            reveal_strlit("code");
            assert("code"@ =~= key_code());
            assert(k@ != key_msg_id() && k@ != key_in_reply_to() && k@ != key_type() && k@
                != key_echo() && k@ != key_id() && k@ != key_node_id() && k@ != key_node_ids()
                && k@ != key_message() && k@ != key_messages());
        }
        if acc.code.is_some() {
            None
        } else {
            match parse_u32_x(s, i) {
                Some((v, j)) => Some((BodyAccX { code: Some(v), ..acc }, j)),
                None => None,
            }
        }
    } else if chars_eq_str(k, "text") {
        proof {
            reveal_strlit("msg_id");
            reveal_strlit("in_reply_to");
            reveal_strlit("type");
            reveal_strlit("echo");
            reveal_strlit("id");
            reveal_strlit("node_id");
            reveal_strlit("node_ids");
            reveal_strlit("message");
            reveal_strlit("messages");
            reveal_strlit("code");
            reveal_strlit("text");
            assert("text"@ =~= key_text());
            assert(k@ != key_msg_id() && k@ != key_in_reply_to() && k@ != key_type() && k@
                != key_echo() && k@ != key_id() && k@ != key_node_id() && k@ != key_node_ids()
                && k@ != key_message() && k@ != key_messages() && k@ != key_code());
        }
        if acc.seen_text {
            None
        } else {
            match parse_opt_string_x(s, i) {
                Some((v, j)) => Some((BodyAccX { text: v, seen_text: true, ..acc }, j)),
                None => None,
            }
        }
    } else if chars_eq_str(k, "topology") {
        proof {
            reveal_strlit("msg_id");
            reveal_strlit("in_reply_to");
            reveal_strlit("type");
            reveal_strlit("echo");
            reveal_strlit("id");
            reveal_strlit("node_id");
            reveal_strlit("node_ids");
            reveal_strlit("message");
            reveal_strlit("messages");
            reveal_strlit("code");
            reveal_strlit("text");
            reveal_strlit("topology");
            assert("topology"@ =~= key_topology());
            assert(k@ != key_msg_id() && k@ != key_in_reply_to() && k@ != key_type() && k@
                != key_echo() && k@ != key_id() && k@ != key_node_id() && k@ != key_node_ids()
                && k@ != key_message() && k@ != key_messages() && k@ != key_code() && k@
                != key_text());
        }
        if acc.has_topology {
            None
        } else {
            match parse_topo_value_x(s, i, s.len()) {
                Some(j) => Some((BodyAccX { has_topology: true, ..acc }, j)),
                None => None,
            }
        }
    } else {
        proof {
            reveal_strlit("msg_id");
            reveal_strlit("in_reply_to");
            reveal_strlit("type");
            reveal_strlit("echo");
            reveal_strlit("id");
            reveal_strlit("node_id");
            reveal_strlit("node_ids");
            reveal_strlit("message");
            reveal_strlit("messages");
            reveal_strlit("code");
            reveal_strlit("text");
            reveal_strlit("topology");
            assert("msg_id"@ =~= key_msg_id());
            assert("in_reply_to"@ =~= key_in_reply_to());
            assert("type"@ =~= key_type());
            assert("echo"@ =~= key_echo());
            assert("id"@ =~= key_id());
            assert("node_id"@ =~= key_node_id());
            assert("node_ids"@ =~= key_node_ids());
            assert("message"@ =~= key_message());
            assert("messages"@ =~= key_messages());
            assert("code"@ =~= key_code());
            assert("text"@ =~= key_text());
            assert("topology"@ =~= key_topology());
        }
        None
    }
}

fn parse_body_field_x(s: &Vec<char>, i: usize, acc: BodyAccX) -> (r: Option<(BodyAccX, usize)>)
    requires
        i <= s.len(),
    ensures
        (match r {
            Some(v) => parse_body_field(s@, i as int, acc@) == Some((v.0@, v.1 as int)) && v.1
                <= s.len(),
            None => parse_body_field(s@, i as int, acc@) is None,
        }),
{
    match parse_string_x(s, i) {
        Some((k, j)) => {
            let j2 = skip_ws_x(s, j);
            if j2 < s.len() && s[j2] == ':' {
                let j3 = skip_ws_x(s, j2 + 1);
                apply_body_field_x(s, j3, &k, acc)
            } else {
                None
            }
        },
        None => None,
    }
}

fn parse_body_tail_x(s: &Vec<char>, i: usize, acc: BodyAccX, fuel: usize) -> (r: Option<
    (BodyAccX, usize),
>)
    requires
        i <= s.len(),
    ensures
        (match r {
            Some(v) => parse_body_tail(s@, i as int, acc@, fuel as nat) == Some(
                (v.0@, v.1 as int),
            ) && v.1 <= s.len(),
            None => parse_body_tail(s@, i as int, acc@, fuel as nat) is None,
        }),
    decreases fuel,
{
    let j = skip_ws_x(s, i);
    if j < s.len() && s[j] == '}' {
        Some((acc, j + 1))
    } else if j < s.len() && s[j] == ',' && fuel > 0 {
        let k = skip_ws_x(s, j + 1);
        match parse_body_field_x(s, k, acc) {
            Some((acc2, m)) => parse_body_tail_x(s, m, acc2, fuel - 1),
            None => None,
        }
    } else {
        None
    }
}

fn parse_body_obj_x(s: &Vec<char>, i: usize) -> (r: Option<(BodyAccX, usize)>)
    requires
        i <= s.len(),
    ensures
        (match r {
            Some(v) => parse_body_obj(s@, i as int) == Some((v.0@, v.1 as int)) && v.1 <= s.len(),
            None => parse_body_obj(s@, i as int) is None,
        }),
{
    if i < s.len() && s[i] == '{' {
        let j = skip_ws_x(s, i + 1);
        if j < s.len() && s[j] == '}' {
            Some((body_acc_empty_x(), j + 1))
        } else {
            match parse_body_field_x(s, j, body_acc_empty_x()) {
                Some((acc, m)) => parse_body_tail_x(s, m, acc, 13),
                None => None,
            }
        }
    } else {
        None
    }
}

fn payload_of_acc_x(acc: BodyAccX) -> (r: Option<Payload>)
    ensures
        (match r {
            Some(p) => payload_of_acc(acc@) == Some(p@),
            None => payload_of_acc(acc@) is None,
        }),
{
    let no_echo = acc.echo.is_none();
    let no_id = acc.id.is_none();
    let no_node = acc.node_id.is_none() && acc.node_ids.is_none();
    let no_message = acc.message.is_none();
    let no_messages = acc.messages.is_none();
    let no_error = acc.code.is_none() && !acc.seen_text;
    let no_topology = !acc.has_topology;
    match acc.tag {
        None => None,
        Some(t) => {
            proof {
                reveal_strlit("echo");
                reveal_strlit("echo_ok");
                reveal_strlit("generate");
                reveal_strlit("generate_ok");
                reveal_strlit("init");
                reveal_strlit("init_ok");
                reveal_strlit("broadcast");
                reveal_strlit("broadcast_ok");
                reveal_strlit("read");
                reveal_strlit("read_ok");
                reveal_strlit("topology");
                reveal_strlit("topology_ok");
                reveal_strlit("error");
                assert("echo"@ =~= tag_echo());
                assert("echo_ok"@ =~= tag_echo_ok());
                assert("generate"@ =~= tag_generate());
                assert("generate_ok"@ =~= tag_generate_ok());
                assert("init"@ =~= tag_init());
                assert("init_ok"@ =~= tag_init_ok());
                assert("broadcast"@ =~= tag_broadcast());
                assert("broadcast_ok"@ =~= tag_broadcast_ok());
                assert("read"@ =~= tag_read());
                assert("read_ok"@ =~= tag_read_ok());
                assert("topology"@ =~= tag_topology());
                assert("topology_ok"@ =~= tag_topology_ok());
                assert("error"@ =~= tag_error());
            }
            if chars_eq_str(&t, "echo") {
                match acc.echo {
                    Some(e) => if no_id && no_node && no_message && no_messages && no_error
                        && no_topology {
                        Some(Payload::Echo { echo: e })
                    } else {
                        None
                    },
                    None => None,
                }
            } else if chars_eq_str(&t, "echo_ok") {
                match acc.echo {
                    Some(e) => if no_id && no_node && no_message && no_messages && no_error
                        && no_topology {
                        Some(Payload::EchoOk { echo: e })
                    } else {
                        None
                    },
                    None => None,
                }
            } else if chars_eq_str(&t, "generate") {
                if no_echo && no_id && no_node && no_message && no_messages && no_error
                    && no_topology {
                    Some(Payload::Generate)
                } else {
                    None
                }
            } else if chars_eq_str(&t, "generate_ok") {
                match acc.id {
                    Some(id) => if no_echo && no_node && no_message && no_messages && no_error
                        && no_topology {
                        Some(Payload::GenerateOk { id })
                    } else {
                        None
                    },
                    None => None,
                }
            } else if chars_eq_str(&t, "init") {
                match (acc.node_id, acc.node_ids) {
                    (Some(n), Some(ns)) => if no_echo && no_id && no_message && no_messages
                        && no_error && no_topology {
                        Some(Payload::Init { node_id: n, node_ids: ns })
                    } else {
                        None
                    },
                    _ => None,
                }
            } else if chars_eq_str(&t, "init_ok") {
                if no_echo && no_id && no_node && no_message && no_messages && no_error
                    && no_topology {
                    Some(Payload::InitOk)
                } else {
                    None
                }
            } else if chars_eq_str(&t, "broadcast") {
                match acc.message {
                    Some(m) => if no_echo && no_id && no_node && no_messages && no_error
                        && no_topology {
                        Some(Payload::Broadcast { message: m })
                    } else {
                        None
                    },
                    None => None,
                }
            } else if chars_eq_str(&t, "broadcast_ok") {
                if no_echo && no_id && no_node && no_message && no_messages && no_error
                    && no_topology {
                    Some(Payload::BroadcastOk)
                } else {
                    None
                }
            } else if chars_eq_str(&t, "read") {
                if no_echo && no_id && no_node && no_message && no_messages && no_error
                    && no_topology {
                    Some(Payload::Read)
                } else {
                    None
                }
            } else if chars_eq_str(&t, "read_ok") {
                match acc.messages {
                    Some(ms) => if no_echo && no_id && no_node && no_message && no_error
                        && no_topology {
                        Some(Payload::ReadOk { messages: ms })
                    } else {
                        None
                    },
                    None => None,
                }
            } else if chars_eq_str(&t, "topology") {
                if no_echo && no_id && no_node && no_message && no_messages && no_error {
                    Some(Payload::Topology)
                } else {
                    None
                }
            } else if chars_eq_str(&t, "topology_ok") {
                if no_echo && no_id && no_node && no_message && no_messages && no_error
                    && no_topology {
                    Some(Payload::TopologyOk)
                } else {
                    None
                }
            } else if chars_eq_str(&t, "error") {
                match acc.code {
                    Some(cv) => if no_echo && no_id && no_node && no_message && no_messages
                        && no_topology {
                        match ErrorCode::from_value(cv) {
                            Some(c) => Some(Payload::Error { code: c, text: acc.text }),
                            None => None,
                        }
                    } else {
                        None
                    },
                    None => None,
                }
            } else {
                None
            }
        },
    }
}

fn parse_body_x(s: &Vec<char>, i: usize) -> (r: Option<(Body, usize)>)
    requires
        i <= s.len(),
    ensures
        (match r {
            Some(v) => parse_body(s@, i as int) == Some((v.0@, v.1 as int)) && v.1 <= s.len(),
            None => parse_body(s@, i as int) is None,
        }),
{
    match parse_body_obj_x(s, i) {
        Some((acc, e)) => {
            let msg_id = acc.msg_id;
            let in_reply_to = acc.in_reply_to;
            match payload_of_acc_x(acc) {
                Some(p) => Some((Body { msg_id, in_reply_to, payload: p }, e)),
                None => None,
            }
        },
        None => None,
    }
}

struct EnvAccX {
    src: Option<String>,
    dest: Option<String>,
    body: Option<Body>,
}

impl View for EnvAccX {
    type V = EnvAcc;

    closed spec fn view(&self) -> EnvAcc {
        EnvAcc {
            src: opt_str_view(self.src),
            dest: opt_str_view(self.dest),
            body: match self.body {
                Some(b) => Some(b@),
                None => None,
            },
        }
    }
}

fn apply_env_field_x(s: &Vec<char>, i: usize, k: &Vec<char>, acc: EnvAccX) -> (r: Option<
    (EnvAccX, usize),
>)
    requires
        i <= s.len(),
    ensures
        (match r {
            Some(v) => apply_env_field(s@, i as int, k@, acc@) == Some((v.0@, v.1 as int)) && v.1
                <= s.len(),
            None => apply_env_field(s@, i as int, k@, acc@) is None,
        }),
{
    if chars_eq_str(k, "src") {
        proof {
            reveal_strlit("src");
            assert("src"@ =~= key_src());
        }
        if acc.src.is_some() {
            None
        } else {
            match parse_string_x(s, i) {
                Some((v, j)) => Some((EnvAccX { src: Some(string_from_chars(&v)), ..acc }, j)),
                None => None,
            }
        }
    } else if chars_eq_str(k, "dest") {
        proof {
            reveal_strlit("src");
            reveal_strlit("dest");
            assert("dest"@ =~= key_dest());
            assert(k@ != key_src());
        }
        if acc.dest.is_some() {
            None
        } else {
            match parse_string_x(s, i) {
                Some((v, j)) => Some((EnvAccX { dest: Some(string_from_chars(&v)), ..acc }, j)),
                None => None,
            }
        }
    } else if chars_eq_str(k, "body") {
        proof {
            reveal_strlit("src");
            reveal_strlit("dest");
            reveal_strlit("body");
            assert("body"@ =~= key_body());
            assert(k@ != key_src() && k@ != key_dest());
        }
        if acc.body.is_some() {
            None
        } else {
            match parse_body_x(s, i) {
                Some((v, j)) => Some((EnvAccX { body: Some(v), ..acc }, j)),
                None => None,
            }
        }
    } else {
        proof {
            reveal_strlit("src");
            reveal_strlit("dest");
            reveal_strlit("body");
            assert("src"@ =~= key_src());
            assert("dest"@ =~= key_dest());
            assert("body"@ =~= key_body());
        }
        None
    }
}

fn parse_env_field_x(s: &Vec<char>, i: usize, acc: EnvAccX) -> (r: Option<(EnvAccX, usize)>)
    requires
        i <= s.len(),
    ensures
        (match r {
            Some(v) => parse_env_field(s@, i as int, acc@) == Some((v.0@, v.1 as int)) && v.1
                <= s.len(),
            None => parse_env_field(s@, i as int, acc@) is None,
        }),
{
    match parse_string_x(s, i) {
        Some((k, j)) => {
            let j2 = skip_ws_x(s, j);
            if j2 < s.len() && s[j2] == ':' {
                let j3 = skip_ws_x(s, j2 + 1);
                apply_env_field_x(s, j3, &k, acc)
            } else {
                None
            }
        },
        None => None,
    }
}

fn parse_env_tail_x(s: &Vec<char>, i: usize, acc: EnvAccX, fuel: usize) -> (r: Option<
    (EnvAccX, usize),
>)
    requires
        i <= s.len(),
    ensures
        (match r {
            Some(v) => parse_env_tail(s@, i as int, acc@, fuel as nat) == Some((v.0@, v.1 as int))
                && v.1 <= s.len(),
            None => parse_env_tail(s@, i as int, acc@, fuel as nat) is None,
        }),
    decreases fuel,
{
    let j = skip_ws_x(s, i);
    if j < s.len() && s[j] == '}' {
        Some((acc, j + 1))
    } else if j < s.len() && s[j] == ',' && fuel > 0 {
        let k = skip_ws_x(s, j + 1);
        match parse_env_field_x(s, k, acc) {
            Some((acc2, m)) => parse_env_tail_x(s, m, acc2, fuel - 1),
            None => None,
        }
    } else {
        None
    }
}

fn parse_envelope_at_x(s: &Vec<char>, i: usize) -> (r: Option<(Envelope, usize)>)
    requires
        i <= s.len(),
    ensures
        (match r {
            Some(v) => parse_envelope_at(s@, i as int) == Some((v.0@, v.1 as int)) && v.1
                <= s.len(),
            None => parse_envelope_at(s@, i as int) is None,
        }),
{
    if i < s.len() && s[i] == '{' {
        let j = skip_ws_x(s, i + 1);
        match parse_env_field_x(s, j, EnvAccX { src: None, dest: None, body: None }) {
            Some((acc, m)) => {
                match parse_env_tail_x(s, m, acc, 4) {
                    Some((acc2, e)) => {
                        match (acc2.src, acc2.dest, acc2.body) {
                            (Some(src), Some(dest), Some(body)) => Some(
                                (Envelope { src, dest, body }, e),
                            ),
                            _ => None,
                        }
                    },
                    None => None,
                }
            },
            None => None,
        }
    } else {
        None
    }
}

/// The reason a line was rejected: it is not a well-formed encoding of
/// the envelope schema. Carries the offending line.
#[derive(Clone, Debug, PartialEq, Eq)]
pub struct DecodeError {
    pub text: String,
}

impl View for DecodeError {
    type V = Seq<char>;

    open spec fn view(&self) -> Seq<char> {
        self.text@
    }
}

/// Decodes one line into an envelope: exactly the lines [`spec_decode`]
/// accepts are decoded, to exactly the envelope it denotes, and every
/// other line is rejected with a [`DecodeError`] carrying the line.
pub fn decode(line: &str) -> (r: Result<Envelope, DecodeError>)
    ensures
        (match spec_decode(line@) {
            Some(v) => r matches Ok(env) && env@ == v,
            None => r matches Err(e) && e@ == line@,
        }),
{
    let s = chars_of(line);
    let i = skip_ws_x(&s, 0);
    match parse_envelope_at_x(&s, i) {
        Some((env, e)) => {
            let j = skip_ws_x(&s, e);
            if j == s.len() {
                Ok(env)
            } else {
                Err(DecodeError { text: line.to_owned() })
            }
        },
        None => Err(DecodeError { text: line.to_owned() }),
    }
}

// ---------------------------------------------------------------------
// The encoder
// ---------------------------------------------------------------------
/// Whether `c` renders as itself, with no escape.
pub open spec fn plain_char(c: char) -> bool {
    c != '"' && c != '\\' && (c as u32) >= 0x20
}

/// Whether every character of `s` renders as itself.
pub open spec fn plain_seq(s: Seq<char>) -> bool {
    forall|i: int| 0 <= i < s.len() ==> plain_char(s[i])
}

/// A sequence of plain characters renders as itself.
pub proof fn lemma_escape_plain(s: Seq<char>)
    requires
        plain_seq(s),
    ensures
        escape_string(s) == s,
    decreases s.len(),
{
    if s.len() == 0 {
        assert(escape_string(s) =~= s);
    } else {
        assert(plain_char(s[0]));
        assert(plain_seq(s.drop_first()));
        lemma_escape_plain(s.drop_first());
        assert(escape_char(s[0]) =~= seq![s[0]]);
        assert(escape_string(s) =~= s);
    }
}

/// Escaping renders left to right: one more character appends its escape.
pub proof fn lemma_escape_string_push(t: Seq<char>, c: char)
    ensures
        escape_string(t.push(c)) == escape_string(t) + escape_char(c),
    decreases t.len(),
{
    if t.len() == 0 {
        assert(t.push(c).drop_first() =~= t);
        assert(t.push(c)[0] == c);
        assert(escape_string(t.push(c)) == escape_char(c) + escape_string(t));
        assert(escape_char(c) + escape_string(t) =~= escape_string(t) + escape_char(c));
    } else {
        assert(t.push(c).drop_first() =~= t.drop_first().push(c));
        assert(t.push(c)[0] == t[0]);
        lemma_escape_string_push(t.drop_first(), c);
        assert(escape_string(t.push(c)) =~= escape_string(t) + escape_char(c));
    }
}

fn digit_char_x(d: u32) -> (c: char)
    requires
        d < 10,
    ensures
        c == digit_char(d as nat),
{
    if d == 0 {
        '0'
    } else if d == 1 {
        '1'
    } else if d == 2 {
        '2'
    } else if d == 3 {
        '3'
    } else if d == 4 {
        '4'
    } else if d == 5 {
        '5'
    } else if d == 6 {
        '6'
    } else if d == 7 {
        '7'
    } else if d == 8 {
        '8'
    } else {
        '9'
    }
}

fn hex_char_x(d: u32) -> (c: char)
    requires
        d < 16,
    ensures
        c == hex_char(d as nat),
{
    if d < 10 {
        digit_char_x(d)
    } else if d == 10 {
        'a'
    } else if d == 11 {
        'b'
    } else if d == 12 {
        'c'
    } else if d == 13 {
        'd'
    } else if d == 14 {
        'e'
    } else {
        'f'
    }
}

fn push_escaped(out: &mut Vec<char>, c: char)
    ensures
        final(out)@ == old(out)@ + escape_char(c),
{
    if c == '"' {
        out.push('\\');
        out.push('"');
        proof {
            assert(out@ =~= old(out)@ + escape_char(c));
        }
    } else if c == '\\' {
        out.push('\\');
        out.push('\\');
        proof {
            assert(out@ =~= old(out)@ + escape_char(c));
        }
    } else if (c as u32) < 0x20 {
        let v = c as u32;
        out.push('\\');
        out.push('u');
        out.push('0');
        out.push('0');
        out.push(hex_char_x(v / 16));
        out.push(hex_char_x(v % 16));
        proof {
            assert(out@ =~= old(out)@ + escape_char(c));
        }
    } else {
        out.push(c);
        proof {
            assert(out@ =~= old(out)@ + escape_char(c));
        }
    }
}

fn push_rendered_string(out: &mut Vec<char>, t: &String)
    ensures
        final(out)@ == old(out)@ + render_string(t@),
{
    out.push('"');
    let s = t.as_str();
    let n = s.unicode_len();
    proof {
        assert(t@.subrange(0, 0) =~= Seq::<char>::empty());
        assert(out@ =~= old(out)@ + seq!['"'] + escape_string(t@.subrange(0, 0)));
    }
    let mut i: usize = 0;
    while i < n
        invariant
            s@ == t@,
            n == t@.len(),
            i <= n,
            out@ == old(out)@ + seq!['"'] + escape_string(t@.subrange(0, i as int)),
        decreases n - i,
    {
        let c = s.get_char(i);
        push_escaped(out, c);
        proof {
            assert(t@.subrange(0, i as int).push(c) =~= t@.subrange(0, i as int + 1));
            lemma_escape_string_push(t@.subrange(0, i as int), c);
            assert(out@ =~= old(out)@ + seq!['"'] + escape_string(t@.subrange(0, i as int + 1)));
        }
        i += 1;
    }
    out.push('"');
    proof {
        assert(t@.subrange(0, n as int) =~= t@);
        assert(out@ =~= old(out)@ + render_string(t@));
    }
}

fn push_dec_digits(out: &mut Vec<char>, n: u32)
    ensures
        final(out)@ == old(out)@ + dec_digits(n as nat),
    decreases n,
{
    if n < 10 {
        out.push(digit_char_x(n));
        proof {
            assert(out@ =~= old(out)@ + dec_digits(n as nat));
        }
    } else {
        push_dec_digits(out, n / 10);
        out.push(digit_char_x(n % 10));
        proof {
            assert(out@ =~= old(out)@ + dec_digits(n as nat));
        }
    }
}

/// Copies the characters of a literal.
fn push_str_lit(out: &mut Vec<char>, t: &str)
    ensures
        final(out)@ == old(out)@ + t@,
{
    let n = t.unicode_len();
    let mut i: usize = 0;
    proof {
        assert(out@ =~= old(out)@ + t@.subrange(0, 0));
    }
    while i < n
        invariant
            n == t@.len(),
            i <= n,
            out@ == old(out)@ + t@.subrange(0, i as int),
        decreases n - i,
    {
        out.push(t.get_char(i));
        proof {
            assert(out@ =~= old(out)@ + t@.subrange(0, i as int + 1));
        }
        i += 1;
    }
    proof {
        assert(t@.subrange(0, n as int) =~= t@);
    }
}

fn push_strings_tail(out: &mut Vec<char>, vs: &Vec<String>, idx: usize)
    requires
        idx <= vs.len(),
    ensures
        final(out)@ == old(out)@ + render_strings_tail(
            vs.deep_view().subrange(idx as int, vs.deep_view().len() as int),
        ),
    decreases vs.len() - idx,
{
    let ghost dv = vs.deep_view();
    proof {
        assert(dv.len() == vs@.len());
    }
    if idx == vs.len() {
        out.push(']');
        proof {
            assert(dv.subrange(idx as int, dv.len() as int) =~= Seq::<Seq<char>>::empty());
            assert(out@ =~= old(out)@ + render_strings_tail(
                dv.subrange(idx as int, dv.len() as int),
            ));
        }
    } else {
        out.push(',');
        push_rendered_string(out, &vs[idx]);
        push_strings_tail(out, vs, idx + 1);
        proof {
            let sub = dv.subrange(idx as int, dv.len() as int);
            assert(sub[0] == dv[idx as int]);
            assert(dv[idx as int] == vs@[idx as int]@);
            assert(sub.drop_first() =~= dv.subrange(idx as int + 1, dv.len() as int));
            assert(out@ =~= old(out)@ + render_strings_tail(sub));
        }
    }
}

fn push_strings_arr(out: &mut Vec<char>, vs: &Vec<String>)
    ensures
        final(out)@ == old(out)@ + render_strings_arr(vs.deep_view()),
{
    let ghost dv = vs.deep_view();
    proof {
        assert(dv.len() == vs@.len());
    }
    if vs.len() == 0 {
        out.push('[');
        out.push(']');
        proof {
            assert(out@ =~= old(out)@ + render_strings_arr(dv));
        }
    } else {
        out.push('[');
        push_rendered_string(out, &vs[0]);
        push_strings_tail(out, vs, 1);
        proof {
            assert(dv[0] == vs@[0]@);
            assert(dv.subrange(1, dv.len() as int) =~= dv.drop_first());
            assert(out@ =~= old(out)@ + render_strings_arr(dv));
        }
    }
}

fn push_u32s_tail(out: &mut Vec<char>, vs: &Vec<u32>, idx: usize)
    requires
        idx <= vs.len(),
    ensures
        final(out)@ == old(out)@ + render_u32s_tail(vs@.subrange(idx as int, vs@.len() as int)),
    decreases vs.len() - idx,
{
    let ghost dv = vs@;
    if idx == vs.len() {
        out.push(']');
        proof {
            assert(dv.subrange(idx as int, dv.len() as int) =~= Seq::<u32>::empty());
            assert(out@ =~= old(out)@ + render_u32s_tail(
                dv.subrange(idx as int, dv.len() as int),
            ));
        }
    } else {
        out.push(',');
        push_dec_digits(out, vs[idx]);
        push_u32s_tail(out, vs, idx + 1);
        proof {
            let sub = dv.subrange(idx as int, dv.len() as int);
            assert(sub[0] == dv[idx as int]);
            assert(sub.drop_first() =~= dv.subrange(idx as int + 1, dv.len() as int));
            assert(out@ =~= old(out)@ + render_u32s_tail(sub));
        }
    }
}

fn push_u32s_arr(out: &mut Vec<char>, vs: &Vec<u32>)
    ensures
        final(out)@ == old(out)@ + render_u32s_arr(vs@),
{
    let ghost dv = vs@;
    if vs.len() == 0 {
        out.push('[');
        out.push(']');
        proof {
            assert(out@ =~= old(out)@ + render_u32s_arr(dv));
        }
    } else {
        out.push('[');
        push_dec_digits(out, vs[0]);
        push_u32s_tail(out, vs, 1);
        proof {
            assert(dv.subrange(1, dv.len() as int) =~= dv.drop_first());
            assert(out@ =~= old(out)@ + render_u32s_arr(dv));
        }
    }
}

fn push_tag(out: &mut Vec<char>, p: &Payload)
    ensures
        final(out)@ == old(out)@ + render_string(tag_of(p@)),
{
    match p {
        Payload::Echo { .. } => {
            push_str_lit(out, "\"echo\"");
            proof {
                reveal_strlit("\"echo\"");
                lemma_escape_plain(tag_echo());
                assert("\"echo\""@ =~= render_string(tag_echo()));
            }
        },
        Payload::EchoOk { .. } => {
            push_str_lit(out, "\"echo_ok\"");
            proof {
                reveal_strlit("\"echo_ok\"");
                lemma_escape_plain(tag_echo_ok());
                assert("\"echo_ok\""@ =~= render_string(tag_echo_ok()));
            }
        },
        Payload::Generate => {
            push_str_lit(out, "\"generate\"");
            proof {
                reveal_strlit("\"generate\"");
                lemma_escape_plain(tag_generate());
                assert("\"generate\""@ =~= render_string(tag_generate()));
            }
        },
        Payload::GenerateOk { .. } => {
            push_str_lit(out, "\"generate_ok\"");
            proof {
                reveal_strlit("\"generate_ok\"");
                lemma_escape_plain(tag_generate_ok());
                assert("\"generate_ok\""@ =~= render_string(tag_generate_ok()));
            }
        },
        Payload::Init { .. } => {
            push_str_lit(out, "\"init\"");
            proof {
                reveal_strlit("\"init\"");
                lemma_escape_plain(tag_init());
                assert("\"init\""@ =~= render_string(tag_init()));
            }
        },
        Payload::InitOk => {
            push_str_lit(out, "\"init_ok\"");
            proof {
                reveal_strlit("\"init_ok\"");
                lemma_escape_plain(tag_init_ok());
                assert("\"init_ok\""@ =~= render_string(tag_init_ok()));
            }
        },
        Payload::Broadcast { .. } => {
            push_str_lit(out, "\"broadcast\"");
            proof {
                reveal_strlit("\"broadcast\"");
                lemma_escape_plain(tag_broadcast());
                assert("\"broadcast\""@ =~= render_string(tag_broadcast()));
            }
        },
        Payload::BroadcastOk => {
            push_str_lit(out, "\"broadcast_ok\"");
            proof {
                reveal_strlit("\"broadcast_ok\"");
                lemma_escape_plain(tag_broadcast_ok());
                assert("\"broadcast_ok\""@ =~= render_string(tag_broadcast_ok()));
            }
        },
        Payload::Read => {
            push_str_lit(out, "\"read\"");
            proof {
                reveal_strlit("\"read\"");
                lemma_escape_plain(tag_read());
                assert("\"read\""@ =~= render_string(tag_read()));
            }
        },
        Payload::ReadOk { .. } => {
            push_str_lit(out, "\"read_ok\"");
            proof {
                reveal_strlit("\"read_ok\"");
                lemma_escape_plain(tag_read_ok());
                assert("\"read_ok\""@ =~= render_string(tag_read_ok()));
            }
        },
        Payload::Topology => {
            push_str_lit(out, "\"topology\"");
            proof {
                reveal_strlit("\"topology\"");
                lemma_escape_plain(tag_topology());
                assert("\"topology\""@ =~= render_string(tag_topology()));
            }
        },
        Payload::TopologyOk => {
            push_str_lit(out, "\"topology_ok\"");
            proof {
                reveal_strlit("\"topology_ok\"");
                lemma_escape_plain(tag_topology_ok());
                assert("\"topology_ok\""@ =~= render_string(tag_topology_ok()));
            }
        },
        Payload::Error { .. } => {
            push_str_lit(out, "\"error\"");
            proof {
                reveal_strlit("\"error\"");
                lemma_escape_plain(tag_error());
                assert("\"error\""@ =~= render_string(tag_error()));
            }
        },
    }
}

fn push_payload_fields(out: &mut Vec<char>, p: &Payload)
    ensures
        final(out)@ == old(out)@ + render_payload_fields(p@),
{
    match p {
        Payload::Echo { echo } => {
            push_str_lit(out, ",\"echo\":");
            push_rendered_string(out, echo);
            proof {
                reveal_strlit(",\"echo\":");
                assert(",\"echo\":"@ =~= seq![','] + render_key(key_echo()));
                assert(out@ =~= old(out)@ + render_payload_fields(p@));
            }
        },
        Payload::EchoOk { echo } => {
            push_str_lit(out, ",\"echo\":");
            push_rendered_string(out, echo);
            proof {
                reveal_strlit(",\"echo\":");
                assert(",\"echo\":"@ =~= seq![','] + render_key(key_echo()));
                assert(out@ =~= old(out)@ + render_payload_fields(p@));
            }
        },
        Payload::Generate => {
            proof {
                assert(out@ =~= old(out)@ + render_payload_fields(p@));
            }
        },
        Payload::GenerateOk { id } => {
            push_str_lit(out, ",\"id\":");
            push_rendered_string(out, id);
            proof {
                reveal_strlit(",\"id\":");
                assert(",\"id\":"@ =~= seq![','] + render_key(key_id()));
                assert(out@ =~= old(out)@ + render_payload_fields(p@));
            }
        },
        Payload::Init { node_id, node_ids } => {
            push_str_lit(out, ",\"node_id\":");
            push_rendered_string(out, node_id);
            push_str_lit(out, ",\"node_ids\":");
            push_strings_arr(out, node_ids);
            proof {
                reveal_strlit(",\"node_id\":");
                reveal_strlit(",\"node_ids\":");
                assert(",\"node_id\":"@ =~= seq![','] + render_key(key_node_id()));
                assert(",\"node_ids\":"@ =~= seq![','] + render_key(key_node_ids()));
                assert(out@ =~= old(out)@ + render_payload_fields(p@));
            }
        },
        Payload::InitOk => {
            proof {
                assert(out@ =~= old(out)@ + render_payload_fields(p@));
            }
        },
        Payload::Broadcast { message } => {
            push_str_lit(out, ",\"message\":");
            push_dec_digits(out, *message);
            proof {
                reveal_strlit(",\"message\":");
                assert(",\"message\":"@ =~= seq![','] + render_key(key_message()));
                assert(out@ =~= old(out)@ + render_payload_fields(p@));
            }
        },
        Payload::BroadcastOk => {
            proof {
                assert(out@ =~= old(out)@ + render_payload_fields(p@));
            }
        },
        Payload::Read => {
            proof {
                assert(out@ =~= old(out)@ + render_payload_fields(p@));
            }
        },
        Payload::ReadOk { messages } => {
            push_str_lit(out, ",\"messages\":");
            push_u32s_arr(out, messages);
            proof {
                reveal_strlit(",\"messages\":");
                assert(",\"messages\":"@ =~= seq![','] + render_key(key_messages()));
                assert(out@ =~= old(out)@ + render_payload_fields(p@));
            }
        },
        Payload::Topology => {
            proof {
                assert(out@ =~= old(out)@ + render_payload_fields(p@));
            }
        },
        Payload::TopologyOk => {
            proof {
                assert(out@ =~= old(out)@ + render_payload_fields(p@));
            }
        },
        Payload::Error { code, text } => {
            push_str_lit(out, ",\"code\":");
            push_dec_digits(out, code.code_value());
            match text {
                Some(t) => {
                    push_str_lit(out, ",\"text\":");
                    push_rendered_string(out, t);
                },
                None => {},
            }
            proof {
                reveal_strlit(",\"code\":");
                reveal_strlit(",\"text\":");
                assert(",\"code\":"@ =~= seq![','] + render_key(key_code()));
                assert(",\"text\":"@ =~= seq![','] + render_key(key_text()));
                assert(out@ =~= old(out)@ + render_payload_fields(p@));
            }
        },
    }
}

fn push_body(out: &mut Vec<char>, b: &Body)
    ensures
        final(out)@ == old(out)@ + render_body(b@),
{
    push_str_lit(out, "{\"type\":");
    proof {
        reveal_strlit("{\"type\":");
        assert("{\"type\":"@ =~= seq!['{'] + render_key(key_type()));
    }
    push_tag(out, &b.payload);
    match b.msg_id {
        Some(n) => {
            push_str_lit(out, ",\"msg_id\":");
            push_dec_digits(out, n);
            proof {
                reveal_strlit(",\"msg_id\":");
                assert(",\"msg_id\":"@ =~= seq![','] + render_key(key_msg_id()));
            }
        },
        None => {},
    }
    match b.in_reply_to {
        Some(n) => {
            push_str_lit(out, ",\"in_reply_to\":");
            push_dec_digits(out, n);
            proof {
                reveal_strlit(",\"in_reply_to\":");
                assert(",\"in_reply_to\":"@ =~= seq![','] + render_key(key_in_reply_to()));
            }
        },
        None => {},
    }
    push_payload_fields(out, &b.payload);
    out.push('}');
    proof {
        assert(out@ =~= old(out)@ + render_body(b@));
    }
}

/// Encodes an envelope as one line: exactly [`spec_encode`] of it. Total,
/// and self-delimited, for every envelope.
pub fn encode(env: &Envelope) -> (r: String)
    ensures
        r@ == spec_encode(env@),
{
    let mut out: Vec<char> = Vec::new();
    push_str_lit(&mut out, "{\"src\":");
    proof {
        reveal_strlit("{\"src\":");
        assert("{\"src\":"@ =~= seq!['{'] + render_key(key_src()));
    }
    push_rendered_string(&mut out, &env.src);
    push_str_lit(&mut out, ",\"dest\":");
    proof {
        reveal_strlit(",\"dest\":");
        assert(",\"dest\":"@ =~= seq![','] + render_key(key_dest()));
    }
    push_rendered_string(&mut out, &env.dest);
    push_str_lit(&mut out, ",\"body\":");
    proof {
        reveal_strlit(",\"body\":");
        assert(",\"body\":"@ =~= seq![','] + render_key(key_body()));
    }
    push_body(&mut out, &env.body);
    out.push('}');
    proof {
        assert(out@ =~= spec_encode(env@));
    }
    string_from_chars(&out)
}

// ---------------------------------------------------------------------
// Round trip: parsing a canonical rendering gives the value back
// ---------------------------------------------------------------------
/// The text `t` stands in `s` at position `i`.
pub open spec fn text_at(s: Seq<char>, i: int, t: Seq<char>) -> bool {
    0 <= i && i + t.len() <= s.len() && s.subrange(i, i + t.len()) == t
}

pub proof fn lemma_text_at_split(s: Seq<char>, i: int, a: Seq<char>, b: Seq<char>)
    requires
        text_at(s, i, a + b),
    ensures
        text_at(s, i, a),
        text_at(s, i + a.len(), b),
{
    assert forall|m: int| 0 <= m < a.len() implies s[i + m] == a[m] by {
        assert(s.subrange(i, i + (a + b).len())[m] == s[i + m]);
        assert((a + b)[m] == a[m]);
    }
    assert forall|m: int| 0 <= m < b.len() implies s[i + a.len() + m] == b[m] by {
        assert(s.subrange(i, i + (a + b).len())[a.len() + m] == s[i + a.len() + m]);
        assert((a + b)[a.len() + m] == b[m]);
    }
    assert(s.subrange(i, i + a.len()) =~= a);
    assert(s.subrange(i + a.len(), i + (a + b).len()) =~= b);
}

pub proof fn lemma_text_at_index(s: Seq<char>, i: int, t: Seq<char>, m: int)
    requires
        text_at(s, i, t),
        0 <= m < t.len(),
    ensures
        s[i + m] == t[m],
{
    assert(s.subrange(i, i + t.len())[m] == s[i + m]);
}

pub proof fn lemma_digit_char_val(d: nat)
    requires
        d < 10,
    ensures
        digit_val(digit_char(d)) == d,
        is_digit(digit_char(d)),
{
}

pub proof fn lemma_hex_round(d: nat)
    requires
        d < 16,
    ensures
        hex_val(hex_char(d)) == Some(d),
{
}

/// Parsing the escaped rendering of `v` followed by a closing quote gives
/// `v` back.
pub proof fn lemma_parse_escaped(v: Seq<char>, s: Seq<char>, i: int)
    requires
        text_at(s, i, escape_string(v) + seq!['"']),
    ensures
        parse_str_body(s, i) == Some((v, i + escape_string(v).len() + 1)),
    decreases v.len(),
{
    let es = escape_string(v);
    if v.len() == 0 {
        lemma_text_at_index(s, i, es + seq!['"'], 0);
        assert(s[i] == '"');
        assert(v =~= Seq::<char>::empty());
    } else {
        let c = v[0];
        let ec = escape_char(c);
        let esr = escape_string(v.drop_first());
        assert(es == ec + esr);
        assert(es + seq!['"'] =~= ec + (esr + seq!['"']));
        lemma_text_at_split(s, i, ec, esr + seq!['"']);
        let i2 = i + ec.len();
        lemma_parse_escaped(v.drop_first(), s, i2);
        assert(parse_str_body(s, i2) == Some((v.drop_first(), i2 + esr.len() + 1)));
        if c == '"' {
            lemma_text_at_index(s, i, ec, 0);
            lemma_text_at_index(s, i, ec, 1);
            assert(s[i] == '\\' && s[i + 1] == '"');
            assert(seq!['"'] + v.drop_first() =~= v);
        } else if c == '\\' {
            lemma_text_at_index(s, i, ec, 0);
            lemma_text_at_index(s, i, ec, 1);
            assert(s[i] == '\\' && s[i + 1] == '\\');
            assert(seq!['\\'] + v.drop_first() =~= v);
        } else if (c as u32) < 0x20 {
            lemma_text_at_index(s, i, ec, 0);
            lemma_text_at_index(s, i, ec, 1);
            lemma_text_at_index(s, i, ec, 2);
            lemma_text_at_index(s, i, ec, 3);
            lemma_text_at_index(s, i, ec, 4);
            lemma_text_at_index(s, i, ec, 5);
            assert(s[i] == '\\' && s[i + 1] == 'u' && s[i + 2] == '0' && s[i + 3] == '0');
            assert(s[i + 4] == hex_char((c as u32 / 16) as nat));
            assert(s[i + 5] == hex_char((c as u32 % 16) as nat));
            lemma_hex_round((c as u32 / 16) as nat);
            lemma_hex_round((c as u32 % 16) as nat);
            assert(hex_val(s[i + 2]) == Some(0nat));
            assert(hex_val(s[i + 3]) == Some(0nat));
            vstd::arithmetic::div_mod::lemma_fundamental_div_mod(c as u32 as int, 16);
            assert(hex4(s, i + 2) == Some((c as u32) as nat));
            assert(is_scalar_value(c as u32));
            vstd::utf8::char_u32_cast(c, c as u32);
            assert(((c as u32) as nat as u32) as char == c);
            assert(seq![c] + v.drop_first() =~= v);
        } else {
            lemma_text_at_index(s, i, ec, 0);
            assert(s[i] == c);
            assert(seq![c] + v.drop_first() =~= v);
        }
    }
}

/// Parsing the rendering of a string gives the string back.
pub proof fn lemma_parse_render_string(v: Seq<char>, s: Seq<char>, i: int)
    requires
        text_at(s, i, render_string(v)),
    ensures
        parse_string(s, i) == Some((v, i + render_string(v).len())),
{
    let es = escape_string(v);
    assert(render_string(v) =~= seq!['"'] + (es + seq!['"']));
    lemma_text_at_split(s, i, seq!['"'], es + seq!['"']);
    lemma_text_at_index(s, i, render_string(v), 0);
    assert(s[i] == '"');
    lemma_parse_escaped(v, s, i + 1);
}

/// The digits of a number are digits, and there is at least one.
pub proof fn lemma_dec_digits_wf(n: nat)
    ensures
        dec_digits(n).len() >= 1,
        forall|m: int| 0 <= m < dec_digits(n).len() ==> is_digit(dec_digits(n)[m]),
        forall|m: int|
            0 <= m < dec_digits(n).len() ==> #[trigger] (dec_digits(n)[m] as u32) >= '0' as u32,
    decreases n,
{
    if n >= 10 {
        lemma_dec_digits_wf(n / 10);
        assert(forall|m: int|
            0 <= m < dec_digits(n / 10).len() ==> dec_digits(n)[m] == dec_digits(n / 10)[m]);
    }
}

/// The digits of a number denote the number.
pub proof fn lemma_val_of_dec_digits(n: nat)
    ensures
        val_of_digits(dec_digits(n)) == n,
    decreases n,
{
    if n < 10 {
        lemma_digit_char_val(n);
        assert(dec_digits(n) == seq![digit_char(n)]);
        assert(dec_digits(n).len() == 1);
        assert(dec_digits(n).drop_last() =~= Seq::<char>::empty());
        assert(dec_digits(n).last() == digit_char(n));
        assert(val_of_digits(Seq::<char>::empty()) == 0);
        assert(val_of_digits(dec_digits(n)) == val_of_digits(dec_digits(n).drop_last()) * 10
            + digit_val(dec_digits(n).last()));
    } else {
        lemma_val_of_dec_digits(n / 10);
        lemma_digit_char_val(n % 10);
        assert(dec_digits(n) == dec_digits(n / 10).push(digit_char(n % 10)));
        assert(dec_digits(n).len() == dec_digits(n / 10).len() + 1);
        assert(dec_digits(n).drop_last() =~= dec_digits(n / 10));
        assert(dec_digits(n).last() == digit_char(n % 10));
        assert(val_of_digits(dec_digits(n)) == val_of_digits(dec_digits(n).drop_last()) * 10
            + digit_val(dec_digits(n).last()));
        vstd::arithmetic::div_mod::lemma_fundamental_div_mod(n as int, 10);
    }
}

/// Parsing the rendering of a number, followed by anything but a digit,
/// gives the number back.
pub proof fn lemma_parse_render_u32(n: u32, s: Seq<char>, i: int)
    requires
        text_at(s, i, render_u32(n)),
        i + render_u32(n).len() == s.len() || !is_digit(s[i + render_u32(n).len()]),
    ensures
        parse_u32(s, i) == Some((n, i + render_u32(n).len())),
{
    let dd = dec_digits(n as nat);
    lemma_dec_digits_wf(n as nat);
    assert forall|m: int| i <= m < i + dd.len() implies is_digit(s[m]) by {
        lemma_text_at_index(s, i, dd, m - i);
    }
    lemma_digit_run_is(s, i, i + dd.len());
    assert(s.subrange(i, i + dd.len()) == dd);
    lemma_val_of_dec_digits(n as nat);
}

/// Parsing the tail rendering of a string array gives the elements back.
pub proof fn lemma_parse_render_strings_tail(vs: Seq<Seq<char>>, s: Seq<char>, i: int, fuel: nat)
    requires
        text_at(s, i, render_strings_tail(vs)),
        fuel >= vs.len(),
    ensures
        parse_strings_tail(s, i, fuel) == Some((vs, i + render_strings_tail(vs).len())),
    decreases vs.len(),
{
    let rt = render_strings_tail(vs);
    if vs.len() == 0 {
        lemma_text_at_index(s, i, rt, 0);
        assert(s[i] == ']');
        assert(skip_ws(s, i) == i);
        assert(vs =~= Seq::<Seq<char>>::empty());
    } else {
        let rs = render_string(vs[0]);
        let rt2 = render_strings_tail(vs.drop_first());
        assert(rt =~= seq![','] + (rs + rt2));
        lemma_text_at_index(s, i, rt, 0);
        assert(s[i] == ',');
        assert(skip_ws(s, i) == i);
        lemma_text_at_split(s, i, seq![','], rs + rt2);
        lemma_text_at_split(s, i + 1, rs, rt2);
        lemma_text_at_index(s, i + 1, rs, 0);
        assert(s[i + 1] == '"');
        assert(skip_ws(s, i + 1) == i + 1);
        lemma_parse_render_string(vs[0], s, i + 1);
        lemma_parse_render_strings_tail(vs.drop_first(), s, i + 1 + rs.len(), (fuel - 1) as nat);
        assert(seq![vs[0]] + vs.drop_first() =~= vs);
    }
}

/// Parsing the rendering of a string array gives the elements back.
pub proof fn lemma_parse_render_strings_arr(vs: Seq<Seq<char>>, s: Seq<char>, i: int, fuel: nat)
    requires
        text_at(s, i, render_strings_arr(vs)),
        fuel >= vs.len(),
    ensures
        parse_strings_arr(s, i, fuel) == Some((vs, i + render_strings_arr(vs).len())),
{
    let ra = render_strings_arr(vs);
    lemma_text_at_index(s, i, ra, 0);
    assert(s[i] == '[');
    if vs.len() == 0 {
        lemma_text_at_index(s, i, ra, 1);
        assert(s[i + 1] == ']');
        assert(skip_ws(s, i + 1) == i + 1);
        assert(vs =~= Seq::<Seq<char>>::empty());
    } else {
        let rs = render_string(vs[0]);
        let rt = render_strings_tail(vs.drop_first());
        assert(ra =~= seq!['['] + (rs + rt));
        lemma_text_at_split(s, i, seq!['['], rs + rt);
        lemma_text_at_split(s, i + 1, rs, rt);
        lemma_text_at_index(s, i + 1, rs, 0);
        assert(s[i + 1] == '"');
        assert(skip_ws(s, i + 1) == i + 1);
        lemma_parse_render_string(vs[0], s, i + 1);
        lemma_parse_render_strings_tail(vs.drop_first(), s, i + 1 + rs.len(), fuel);
        assert(seq![vs[0]] + vs.drop_first() =~= vs);
    }
}

/// Parsing the tail rendering of a number array gives the elements back.
pub proof fn lemma_parse_render_u32s_tail(vs: Seq<u32>, s: Seq<char>, i: int, fuel: nat)
    requires
        text_at(s, i, render_u32s_tail(vs)),
        fuel >= vs.len(),
    ensures
        parse_u32s_tail(s, i, fuel) == Some((vs, i + render_u32s_tail(vs).len())),
    decreases vs.len(),
{
    let rt = render_u32s_tail(vs);
    if vs.len() == 0 {
        lemma_text_at_index(s, i, rt, 0);
        assert(s[i] == ']');
        assert(skip_ws(s, i) == i);
        assert(vs =~= Seq::<u32>::empty());
    } else {
        let rn = render_u32(vs[0]);
        let rt2 = render_u32s_tail(vs.drop_first());
        assert(rt =~= seq![','] + (rn + rt2));
        lemma_text_at_index(s, i, rt, 0);
        assert(s[i] == ',');
        assert(skip_ws(s, i) == i);
        lemma_text_at_split(s, i, seq![','], rn + rt2);
        lemma_text_at_split(s, i + 1, rn, rt2);
        lemma_text_at_index(s, i + 1 + rn.len(), rt2, 0);
        assert(rt2.len() >= 1 && (rt2[0] == ']' || rt2[0] == ','));
        assert(!is_digit(s[i + 1 + rn.len()]));
        lemma_parse_render_u32(vs[0], s, i + 1);
        assert(skip_ws(s, i + 1) == i + 1) by {
            lemma_dec_digits_wf(vs[0] as nat);
            lemma_text_at_index(s, i + 1, rn, 0);
            assert(is_digit(s[i + 1]));
        }
        lemma_parse_render_u32s_tail(vs.drop_first(), s, i + 1 + rn.len(), (fuel - 1) as nat);
        assert(seq![vs[0]] + vs.drop_first() =~= vs);
    }
}

/// Parsing the rendering of a number array gives the elements back.
pub proof fn lemma_parse_render_u32s_arr(vs: Seq<u32>, s: Seq<char>, i: int, fuel: nat)
    requires
        text_at(s, i, render_u32s_arr(vs)),
        fuel >= vs.len(),
    ensures
        parse_u32s_arr(s, i, fuel) == Some((vs, i + render_u32s_arr(vs).len())),
{
    let ra = render_u32s_arr(vs);
    lemma_text_at_index(s, i, ra, 0);
    assert(s[i] == '[');
    if vs.len() == 0 {
        lemma_text_at_index(s, i, ra, 1);
        assert(s[i + 1] == ']');
        assert(skip_ws(s, i + 1) == i + 1);
        assert(vs =~= Seq::<u32>::empty());
    } else {
        let rn = render_u32(vs[0]);
        let rt = render_u32s_tail(vs.drop_first());
        assert(ra =~= seq!['['] + (rn + rt));
        lemma_text_at_split(s, i, seq!['['], rn + rt);
        lemma_text_at_split(s, i + 1, rn, rt);
        lemma_text_at_index(s, i + 1 + rn.len(), rt, 0);
        assert(rt.len() >= 1 && (rt[0] == ']' || rt[0] == ','));
        assert(!is_digit(s[i + 1 + rn.len()]));
        lemma_parse_render_u32(vs[0], s, i + 1);
        assert(skip_ws(s, i + 1) == i + 1) by {
            lemma_dec_digits_wf(vs[0] as nat);
            lemma_text_at_index(s, i + 1, rn, 0);
            assert(is_digit(s[i + 1]));
        }
        lemma_parse_render_u32s_tail(vs.drop_first(), s, i + 1 + rn.len(), fuel);
        assert(seq![vs[0]] + vs.drop_first() =~= vs);
    }
}

// ---------------------------------------------------------------------
// Round trip: objects
// ---------------------------------------------------------------------
pub proof fn lemma_keys_distinct()
    ensures
        key_echo() != key_type(),
        key_code() != key_type(),
        key_code() != key_echo(),
        key_text() != key_type(),
        key_text() != key_echo(),
        key_text() != key_code(),
        key_message() != key_node_id(),
        key_messages() != key_node_ids(),
        key_topology() != key_node_ids(),
        key_topology() != key_messages(),
        key_body() != key_dest(),
{
    assert(key_echo()[0] == 'e' && key_type()[0] == 't' && key_code()[0] == 'c' && key_text()[0]
        == 't');
    assert(key_text()[1] == 'e' && key_type()[1] == 'y');
    assert(key_message()[0] == 'm' && key_node_id()[0] == 'n');
    assert(key_messages()[0] == 'm' && key_node_ids()[0] == 'n' && key_topology()[0] == 't');
    assert(key_body()[0] == 'b' && key_dest()[0] == 'd');
}

pub proof fn lemma_tags_distinct()
    ensures
        tag_echo_ok() != tag_echo(),
        tag_generate() != tag_echo(),
        tag_generate() != tag_echo_ok(),
        tag_generate_ok() != tag_echo(),
        tag_generate_ok() != tag_echo_ok(),
        tag_generate_ok() != tag_generate(),
        tag_init() != tag_echo(),
        tag_init() != tag_echo_ok(),
        tag_init() != tag_generate(),
        tag_init() != tag_generate_ok(),
        tag_init_ok() != tag_echo(),
        tag_init_ok() != tag_echo_ok(),
        tag_init_ok() != tag_generate(),
        tag_init_ok() != tag_generate_ok(),
        tag_init_ok() != tag_init(),
        tag_broadcast() != tag_echo(),
        tag_broadcast() != tag_echo_ok(),
        tag_broadcast() != tag_generate(),
        tag_broadcast() != tag_generate_ok(),
        tag_broadcast() != tag_init(),
        tag_broadcast() != tag_init_ok(),
        tag_broadcast_ok() != tag_echo(),
        tag_broadcast_ok() != tag_echo_ok(),
        tag_broadcast_ok() != tag_generate(),
        tag_broadcast_ok() != tag_generate_ok(),
        tag_broadcast_ok() != tag_init(),
        tag_broadcast_ok() != tag_init_ok(),
        tag_broadcast_ok() != tag_broadcast(),
        tag_read() != tag_echo(),
        tag_read() != tag_echo_ok(),
        tag_read() != tag_generate(),
        tag_read() != tag_generate_ok(),
        tag_read() != tag_init(),
        tag_read() != tag_init_ok(),
        tag_read() != tag_broadcast(),
        tag_read() != tag_broadcast_ok(),
        tag_read_ok() != tag_echo(),
        tag_read_ok() != tag_echo_ok(),
        tag_read_ok() != tag_generate(),
        tag_read_ok() != tag_generate_ok(),
        tag_read_ok() != tag_init(),
        tag_read_ok() != tag_init_ok(),
        tag_read_ok() != tag_broadcast(),
        tag_read_ok() != tag_broadcast_ok(),
        tag_read_ok() != tag_read(),
        tag_topology() != tag_echo(),
        tag_topology() != tag_echo_ok(),
        tag_topology() != tag_generate(),
        tag_topology() != tag_generate_ok(),
        tag_topology() != tag_init(),
        tag_topology() != tag_init_ok(),
        tag_topology() != tag_broadcast(),
        tag_topology() != tag_broadcast_ok(),
        tag_topology() != tag_read(),
        tag_topology() != tag_read_ok(),
        tag_topology_ok() != tag_echo(),
        tag_topology_ok() != tag_echo_ok(),
        tag_topology_ok() != tag_generate(),
        tag_topology_ok() != tag_generate_ok(),
        tag_topology_ok() != tag_init(),
        tag_topology_ok() != tag_init_ok(),
        tag_topology_ok() != tag_broadcast(),
        tag_topology_ok() != tag_broadcast_ok(),
        tag_topology_ok() != tag_read(),
        tag_topology_ok() != tag_read_ok(),
        tag_topology_ok() != tag_topology(),
        tag_error() != tag_echo(),
        tag_error() != tag_echo_ok(),
        tag_error() != tag_generate(),
        tag_error() != tag_generate_ok(),
        tag_error() != tag_init(),
        tag_error() != tag_init_ok(),
        tag_error() != tag_broadcast(),
        tag_error() != tag_broadcast_ok(),
        tag_error() != tag_read(),
        tag_error() != tag_read_ok(),
        tag_error() != tag_topology(),
        tag_error() != tag_topology_ok(),
{
    assert(tag_echo().len() == 4);
    assert(tag_echo_ok().len() == 7);
    assert(tag_generate().len() == 8);
    assert(tag_generate_ok().len() == 11);
    assert(tag_init().len() == 4);
    assert(tag_init_ok().len() == 7);
    assert(tag_broadcast().len() == 9);
    assert(tag_broadcast_ok().len() == 12);
    assert(tag_read().len() == 4);
    assert(tag_read_ok().len() == 7);
    assert(tag_topology().len() == 8);
    assert(tag_topology_ok().len() == 11);
    assert(tag_error().len() == 5);
    assert(tag_echo()[0] == 'e');
    assert(tag_echo_ok()[0] == 'e');
    assert(tag_generate()[0] == 'g');
    assert(tag_generate_ok()[0] == 'g');
    assert(tag_init()[0] == 'i');
    assert(tag_init_ok()[0] == 'i');
    assert(tag_broadcast()[0] == 'b');
    assert(tag_broadcast_ok()[0] == 'b');
    assert(tag_read()[0] == 'r');
    assert(tag_read_ok()[0] == 'r');
    assert(tag_topology()[0] == 't');
    assert(tag_topology_ok()[0] == 't');
    assert(tag_error()[0] == 'e');
    assert(tag_error()[1] == 'r' && tag_echo_ok()[1] == 'c');
}

/// A payload's own fields render as nothing or as text led by a comma.
pub proof fn lemma_payload_fields_first(p: PayloadV)
    ensures
        render_payload_fields(p).len() == 0 || render_payload_fields(p)[0] == ',',
{
}

pub proof fn lemma_render_strings_arr_len(vs: Seq<Seq<char>>)
    ensures
        render_strings_tail(vs).len() >= vs.len() + 1,
        render_strings_arr(vs).len() >= vs.len() + 2,
    decreases vs.len(),
{
    if vs.len() > 0 {
        lemma_render_strings_arr_len(vs.drop_first());
    }
}

pub proof fn lemma_render_u32s_arr_len(vs: Seq<u32>)
    ensures
        render_u32s_tail(vs).len() >= vs.len() + 1,
        render_u32s_arr(vs).len() >= vs.len() + 2,
    decreases vs.len(),
{
    if vs.len() > 0 {
        lemma_render_u32s_arr_len(vs.drop_first());
        lemma_dec_digits_wf(vs[0] as nat);
    }
}

/// A digit is no whitespace and not the first letter of `null`.
pub proof fn lemma_digit_not_special(c: char)
    requires
        is_digit(c),
    ensures
        !is_ws(c),
        c != 'n',
        c != '"',
        c != '}',
        c != ',',
{
}

/// One `"name" : value` body field, stated over the position of its
/// rendered name.
proof fn lemma_parse_body_field_at(
    s: Seq<char>,
    i: int,
    k: Seq<char>,
    acc: BodyAcc,
    acc2: BodyAcc,
    e: int,
)
    requires
        plain_seq(k),
        text_at(s, i, render_key(k)),
        i + render_key(k).len() < s.len(),
        !is_ws(s[i + render_key(k).len()]),
        apply_body_field(s, i + render_key(k).len(), k, acc) == Some((acc2, e)),
    ensures
        parse_body_field(s, i, acc) == Some((acc2, e)),
{
    let rk = render_key(k);
    lemma_escape_plain(k);
    assert(render_string(k) =~= seq!['"'] + k + seq!['"']);
    assert(rk =~= render_string(k) + seq![':']);
    lemma_text_at_split(s, i, render_string(k), seq![':']);
    lemma_parse_render_string(k, s, i);
    let j = i + render_string(k).len();
    lemma_text_at_index(s, j, seq![':'], 0);
    assert(s[j] == ':');
    assert(skip_ws(s, j) == j);
    assert(skip_ws(s, j + 1) == j + 1);
    assert(j + 1 == i + rk.len());
}

/// One comma-led body field inside the tail of a body object.
proof fn lemma_body_tail_field(
    s: Seq<char>,
    i: int,
    k: Seq<char>,
    acc: BodyAcc,
    acc2: BodyAcc,
    e: int,
    fuel: nat,
)
    requires
        fuel > 0,
        plain_seq(k),
        text_at(s, i, seq![','] + render_key(k)),
        i + 1 + render_key(k).len() < s.len(),
        !is_ws(s[i + 1 + render_key(k).len()]),
        apply_body_field(s, i + 1 + render_key(k).len(), k, acc) == Some((acc2, e)),
    ensures
        parse_body_tail(s, i, acc, fuel) == parse_body_tail(s, e, acc2, (fuel - 1) as nat),
{
    lemma_text_at_split(s, i, seq![','], render_key(k));
    lemma_text_at_index(s, i, seq![','] + render_key(k), 0);
    assert(s[i] == ',');
    assert(skip_ws(s, i) == i);
    lemma_text_at_index(s, i + 1, render_key(k), 0);
    assert(s[i + 1] == '"');
    assert(skip_ws(s, i + 1) == i + 1);
    lemma_parse_body_field_at(s, i + 1, k, acc, acc2, e);
}

proof fn lemma_body_tail_end(s: Seq<char>, i: int, acc: BodyAcc, fuel: nat)
    requires
        0 <= i < s.len(),
        s[i] == '}',
    ensures
        parse_body_tail(s, i, acc, fuel) == Some((acc, i + 1)),
{
    assert(skip_ws(s, i) == i);
}

/// One `"name" : value` envelope field, stated over the position of its
/// rendered name.
proof fn lemma_parse_env_field_at(
    s: Seq<char>,
    i: int,
    k: Seq<char>,
    acc: EnvAcc,
    acc2: EnvAcc,
    e: int,
)
    requires
        plain_seq(k),
        text_at(s, i, render_key(k)),
        i + render_key(k).len() < s.len(),
        !is_ws(s[i + render_key(k).len()]),
        apply_env_field(s, i + render_key(k).len(), k, acc) == Some((acc2, e)),
    ensures
        parse_env_field(s, i, acc) == Some((acc2, e)),
{
    let rk = render_key(k);
    lemma_escape_plain(k);
    assert(render_string(k) =~= seq!['"'] + k + seq!['"']);
    assert(rk =~= render_string(k) + seq![':']);
    lemma_text_at_split(s, i, render_string(k), seq![':']);
    lemma_parse_render_string(k, s, i);
    let j = i + render_string(k).len();
    lemma_text_at_index(s, j, seq![':'], 0);
    assert(s[j] == ':');
    assert(skip_ws(s, j) == j);
    assert(skip_ws(s, j + 1) == j + 1);
    assert(j + 1 == i + rk.len());
}

proof fn lemma_env_tail_field(
    s: Seq<char>,
    i: int,
    k: Seq<char>,
    acc: EnvAcc,
    acc2: EnvAcc,
    e: int,
    fuel: nat,
)
    requires
        fuel > 0,
        plain_seq(k),
        text_at(s, i, seq![','] + render_key(k)),
        i + 1 + render_key(k).len() < s.len(),
        !is_ws(s[i + 1 + render_key(k).len()]),
        apply_env_field(s, i + 1 + render_key(k).len(), k, acc) == Some((acc2, e)),
    ensures
        parse_env_tail(s, i, acc, fuel) == parse_env_tail(s, e, acc2, (fuel - 1) as nat),
{
    lemma_text_at_split(s, i, seq![','], render_key(k));
    lemma_text_at_index(s, i, seq![','] + render_key(k), 0);
    assert(s[i] == ',');
    assert(skip_ws(s, i) == i);
    lemma_text_at_index(s, i + 1, render_key(k), 0);
    assert(s[i + 1] == '"');
    assert(skip_ws(s, i + 1) == i + 1);
    lemma_parse_env_field_at(s, i + 1, k, acc, acc2, e);
}

proof fn lemma_env_tail_end(s: Seq<char>, i: int, acc: EnvAcc, fuel: nat)
    requires
        0 <= i < s.len(),
        s[i] == '}',
    ensures
        parse_env_tail(s, i, acc, fuel) == Some((acc, i + 1)),
{
    assert(skip_ws(s, i) == i);
}

pub proof fn lemma_plain_names()
    ensures
        plain_seq(key_src()),
        plain_seq(key_dest()),
        plain_seq(key_body()),
        plain_seq(key_msg_id()),
        plain_seq(key_in_reply_to()),
        plain_seq(key_type()),
        plain_seq(key_echo()),
        plain_seq(key_id()),
        plain_seq(key_node_id()),
        plain_seq(key_node_ids()),
        plain_seq(key_message()),
        plain_seq(key_messages()),
        plain_seq(key_code()),
        plain_seq(key_text()),
        plain_seq(key_topology()),
{
}

/// The accumulator `acc` with the own fields of the payload `p` set.
pub open spec fn acc_with_payload(acc: BodyAcc, p: PayloadV) -> BodyAcc {
    match p {
        PayloadV::Echo { echo } => BodyAcc { echo: Some(echo), ..acc },
        PayloadV::EchoOk { echo } => BodyAcc { echo: Some(echo), ..acc },
        PayloadV::GenerateOk { id } => BodyAcc { id: Some(id), ..acc },
        PayloadV::Init { node_id, node_ids } => BodyAcc {
            node_id: Some(node_id),
            node_ids: Some(node_ids),
            ..acc
        },
        PayloadV::Broadcast { message } => BodyAcc { message: Some(message), ..acc },
        PayloadV::ReadOk { messages } => BodyAcc { messages: Some(messages), ..acc },
        PayloadV::Error { code, text } => BodyAcc {
            code: Some(code_value_spec(code)),
            text: text,
            seen_text: match text {
                Some(t) => true,
                None => false,
            },
            ..acc
        },
        _ => acc,
    }
}

/// Reassembling an accumulator that holds a payload's tag and exactly its
/// own fields gives the payload back.
pub proof fn lemma_payload_of_acc_with(acc: BodyAcc, p: PayloadV)
    requires
        acc.tag == Some(tag_of(p)),
        no_extra_fields(acc, false, false, false, false, false, false, false),
    ensures
        payload_of_acc(acc_with_payload(acc, p)) == Some(p),
{
    lemma_tags_distinct();
    match p {
        PayloadV::Echo { echo } => {
            assert(payload_of_acc(acc_with_payload(acc, p)) == Some(p));
        },
        PayloadV::EchoOk { echo } => {
            assert(payload_of_acc(acc_with_payload(acc, p)) == Some(p));
        },
        PayloadV::Generate => {
            assert(payload_of_acc(acc_with_payload(acc, p)) == Some(p));
        },
        PayloadV::GenerateOk { id } => {
            assert(payload_of_acc(acc_with_payload(acc, p)) == Some(p));
        },
        PayloadV::Init { node_id, node_ids } => {
            assert(payload_of_acc(acc_with_payload(acc, p)) == Some(p));
        },
        PayloadV::InitOk => {
            assert(payload_of_acc(acc_with_payload(acc, p)) == Some(p));
        },
        PayloadV::Broadcast { message } => {
            assert(payload_of_acc(acc_with_payload(acc, p)) == Some(p));
        },
        PayloadV::BroadcastOk => {
            assert(payload_of_acc(acc_with_payload(acc, p)) == Some(p));
        },
        PayloadV::Read => {
            assert(payload_of_acc(acc_with_payload(acc, p)) == Some(p));
        },
        PayloadV::ReadOk { messages } => {
            assert(payload_of_acc(acc_with_payload(acc, p)) == Some(p));
        },
        PayloadV::Topology => {
            assert(payload_of_acc(acc_with_payload(acc, p)) == Some(p));
        },
        PayloadV::TopologyOk => {
            assert(payload_of_acc(acc_with_payload(acc, p)) == Some(p));
        },
        PayloadV::Error { code, text } => {
            crate::protocol::lemma_code_value_round(code);
            assert(payload_of_acc(acc_with_payload(acc, p)) == Some(p));
        },
    }
}

/// Parsing the rendering of a body gives the body back.
#[verifier::rlimit(100)]
#[verifier::spinoff_prover]
pub proof fn lemma_parse_render_body(b: BodyV, s: Seq<char>, i: int)
    requires
        text_at(s, i, render_body(b)),
    ensures
        parse_body(s, i) == Some((b, i + render_body(b).len())),
{
    let p = b.payload;
    let kt = render_key(key_type());
    let tg = render_string(tag_of(p));
    let om = match b.msg_id {
        Some(n) => seq![','] + render_key(key_msg_id()) + render_u32(n),
        None => Seq::<char>::empty(),
    };
    let oi = match b.in_reply_to {
        Some(n) => seq![','] + render_key(key_in_reply_to()) + render_u32(n),
        None => Seq::<char>::empty(),
    };
    let pf = render_payload_fields(p);
    let rb = render_body(b);
    lemma_plain_names();
    lemma_keys_distinct();
    lemma_tags_distinct();
    lemma_payload_fields_first(p);

    assert(rb =~= seq!['{'] + (kt + (tg + (om + (oi + (pf + seq!['}']))))));
    lemma_text_at_split(s, i, seq!['{'], kt + (tg + (om + (oi + (pf + seq!['}'])))));
    let pk = i + 1;
    lemma_text_at_split(s, pk, kt, tg + (om + (oi + (pf + seq!['}']))));
    let pt = pk + kt.len();
    lemma_text_at_split(s, pt, tg, om + (oi + (pf + seq!['}'])));
    let pm = pt + tg.len();
    lemma_text_at_split(s, pm, om, oi + (pf + seq!['}']));
    let pi2 = pm + om.len();
    lemma_text_at_split(s, pi2, oi, pf + seq!['}']);
    let ppf = pi2 + oi.len();
    lemma_text_at_split(s, ppf, pf, seq!['}']);
    let pcl = ppf + pf.len();
    lemma_text_at_index(s, pcl, seq!['}'], 0);
    assert(s[pcl] == '}');
    lemma_text_at_index(s, i, seq!['{'], 0);
    assert(s[i] == '{');
    lemma_text_at_index(s, pk, kt, 0);
    assert(s[pk] == '"');
    assert(skip_ws(s, pk) == pk);
    lemma_text_at_index(s, pt, tg, 0);
    assert(s[pt] == '"');

    // the first field: the type tag
    lemma_parse_render_string(tag_of(p), s, pt);
    let acc0 = body_acc_empty();
    let acc1 = BodyAcc { tag: Some(tag_of(p)), ..acc0 };
    assert(apply_body_field(s, pt, key_type(), acc0) == Some((acc1, pm)));
    lemma_parse_body_field_at(s, pk, key_type(), acc0, acc1, pm);
    assert(parse_body_obj(s, i) == parse_body_tail(s, pm, acc1, 13));

    // the optional msg_id field
    let acc2 = match b.msg_id {
        Some(n) => BodyAcc { msg_id: Some(n), seen_msg_id: true, ..acc1 },
        None => acc1,
    };
    let f1: nat = match b.msg_id {
        Some(n) => 12,
        None => 13,
    };
    match b.msg_id {
        Some(n) => {
            assert(om =~= (seq![','] + render_key(key_msg_id())) + render_u32(n));
            lemma_text_at_split(s, pm, seq![','] + render_key(key_msg_id()), render_u32(n));
            let pv = pm + 1 + render_key(key_msg_id()).len();
            assert(text_at(s, pv, render_u32(n)));
            lemma_dec_digits_wf(n as nat);
            lemma_text_at_index(s, pv, render_u32(n), 0);
            lemma_digit_not_special(s[pv]);
            // the character after the digits is a comma or the closing brace
            if oi.len() > 0 {
                lemma_text_at_index(s, pi2, oi, 0);
                assert(s[pi2] == ',');
            } else if pf.len() > 0 {
                lemma_text_at_index(s, ppf, pf, 0);
                assert(s[pi2] == ',');
            } else {
                assert(pi2 == pcl);
            }
            assert(!is_digit(s[pi2]));
            lemma_parse_render_u32(n, s, pv);
            assert(!null_at(s, pv));
            assert(parse_opt_u32(s, pv) == Some((Some(n), pi2)));
            assert(apply_body_field(s, pv, key_msg_id(), acc1) == Some((acc2, pi2)));
            lemma_body_tail_field(s, pm, key_msg_id(), acc1, acc2, pi2, 13);
        },
        None => {
            assert(om.len() == 0);
            assert(pi2 == pm);
        },
    }
    assert(parse_body_tail(s, pm, acc1, 13) == parse_body_tail(s, pi2, acc2, f1));

    // the optional in_reply_to field
    let acc3 = match b.in_reply_to {
        Some(n) => BodyAcc { in_reply_to: Some(n), seen_in_reply_to: true, ..acc2 },
        None => acc2,
    };
    let f2: nat = match b.in_reply_to {
        Some(n) => (f1 - 1) as nat,
        None => f1,
    };
    match b.in_reply_to {
        Some(n) => {
            assert(oi =~= (seq![','] + render_key(key_in_reply_to())) + render_u32(n));
            lemma_text_at_split(s, pi2, seq![','] + render_key(key_in_reply_to()), render_u32(n));
            let pv = pi2 + 1 + render_key(key_in_reply_to()).len();
            assert(text_at(s, pv, render_u32(n)));
            lemma_dec_digits_wf(n as nat);
            lemma_text_at_index(s, pv, render_u32(n), 0);
            lemma_digit_not_special(s[pv]);
            if pf.len() > 0 {
                lemma_text_at_index(s, ppf, pf, 0);
                assert(s[ppf] == ',');
            } else {
                assert(ppf == pcl);
            }
            assert(!is_digit(s[ppf]));
            lemma_parse_render_u32(n, s, pv);
            assert(!null_at(s, pv));
            assert(parse_opt_u32(s, pv) == Some((Some(n), ppf)));
            assert(apply_body_field(s, pv, key_in_reply_to(), acc2) == Some((acc3, ppf)));
            lemma_body_tail_field(s, pi2, key_in_reply_to(), acc2, acc3, ppf, f1);
        },
        None => {
            assert(oi.len() == 0);
            assert(ppf == pi2);
        },
    }
    assert(parse_body_tail(s, pi2, acc2, f1) == parse_body_tail(s, ppf, acc3, f2));
    assert(f2 >= 11);

    // the payload's own fields
    let accf = acc_with_payload(acc3, p);
    lemma_body_payload_fields(p, s, ppf, pcl, acc3, f2);
    assert(parse_body_tail(s, ppf, acc3, f2) == Some((accf, pcl + 1)));
    assert(parse_body_obj(s, i) == Some((accf, pcl + 1)));

    // reassembling the parsed fields gives the body back
    lemma_payload_of_acc_with(acc3, p);
    assert(body_of_acc(accf) == Some(b));
    assert(pcl + 1 == i + rb.len());
}

/// Parsing the rendered own fields of a payload, followed by the closing
/// brace, records exactly those fields.
#[verifier::rlimit(100)]
#[verifier::spinoff_prover]
proof fn lemma_body_payload_fields(
    p: PayloadV,
    s: Seq<char>,
    ppf: int,
    pcl: int,
    acc3: BodyAcc,
    f2: nat,
)
    requires
        f2 >= 11,
        acc3.text is None,
        text_at(s, ppf, render_payload_fields(p)),
        pcl == ppf + render_payload_fields(p).len(),
        0 <= pcl < s.len(),
        s[pcl] == '}',
        no_extra_fields(acc3, false, false, false, false, false, false, false),
    ensures
        parse_body_tail(s, ppf, acc3, f2) == Some((acc_with_payload(acc3, p), pcl + 1)),
{
    let pf = render_payload_fields(p);
    let accf = acc_with_payload(acc3, p);
    match p {
        PayloadV::Echo { echo } => {
            assert(pf =~= (seq![','] + render_key(key_echo())) + render_string(echo));
            lemma_body_string_field(s, ppf, pcl, key_echo(), echo, acc3, accf, f2);
        },
        PayloadV::EchoOk { echo } => {
            assert(pf =~= (seq![','] + render_key(key_echo())) + render_string(echo));
            lemma_body_string_field(s, ppf, pcl, key_echo(), echo, acc3, accf, f2);
        },
        PayloadV::Generate => {
            lemma_body_tail_end(s, ppf, acc3, f2);
        },
        PayloadV::GenerateOk { id } => {
            assert(pf =~= (seq![','] + render_key(key_id())) + render_string(id));
            lemma_body_string_field(s, ppf, pcl, key_id(), id, acc3, accf, f2);
        },
        PayloadV::Init { node_id, node_ids } => {
            lemma_body_fields_init(s, ppf, pcl, node_id, node_ids, acc3, f2);
        },
        PayloadV::InitOk => {
            lemma_body_tail_end(s, ppf, acc3, f2);
        },
        PayloadV::Broadcast { message } => {
            lemma_body_fields_broadcast(s, ppf, pcl, message, acc3, f2);
        },
        PayloadV::BroadcastOk => {
            lemma_body_tail_end(s, ppf, acc3, f2);
        },
        PayloadV::Read => {
            lemma_body_tail_end(s, ppf, acc3, f2);
        },
        PayloadV::ReadOk { messages } => {
            lemma_body_fields_read_ok(s, ppf, pcl, messages, acc3, f2);
        },
        PayloadV::Topology => {
            lemma_body_tail_end(s, ppf, acc3, f2);
        },
        PayloadV::TopologyOk => {
            lemma_body_tail_end(s, ppf, acc3, f2);
        },
        PayloadV::Error { code, text } => {
            lemma_body_fields_error(s, ppf, pcl, code, text, acc3, f2);
        },
    }
}

/// One comma-led field holding a rendered string, closing the body: the
/// key must be one that records a string and is not yet set in `acc3`.
#[verifier::rlimit(60)]
#[verifier::spinoff_prover]
proof fn lemma_body_string_field(
    s: Seq<char>,
    ppf: int,
    pcl: int,
    k: Seq<char>,
    v: Seq<char>,
    acc3: BodyAcc,
    accf: BodyAcc,
    f2: nat,
)
    requires
        f2 >= 2,
        k == key_echo() || k == key_id(),
        k == key_echo() ==> accf == (BodyAcc { echo: Some(v), ..acc3 }),
        k == key_id() ==> accf == (BodyAcc { id: Some(v), ..acc3 }),
        no_extra_fields(acc3, false, false, false, false, false, false, false),
        text_at(s, ppf, (seq![','] + render_key(k)) + render_string(v)),
        ppf + 1 + render_key(k).len() + render_string(v).len() == pcl,
        0 <= pcl < s.len(),
        s[pcl] == '}',
    ensures
        parse_body_tail(s, ppf, acc3, f2) == Some((accf, pcl + 1)),
{
    lemma_plain_names();
    lemma_keys_distinct();
    let r1 = seq![','] + render_key(k);
    lemma_text_at_split(s, ppf, r1, render_string(v));
    let pv = ppf + r1.len();
    lemma_text_at_index(s, pv, render_string(v), 0);
    assert(s[pv] == '"');
    lemma_parse_render_string(v, s, pv);
    assert(apply_body_field(s, pv, k, acc3) == Some((accf, pcl)));
    lemma_body_tail_field(s, ppf, k, acc3, accf, pcl, f2);
    lemma_body_tail_end(s, pcl, accf, (f2 - 1) as nat);
}

/// The two fields of an `init` payload, closing the body.
#[verifier::rlimit(60)]
#[verifier::spinoff_prover]
proof fn lemma_body_fields_init(
    s: Seq<char>,
    ppf: int,
    pcl: int,
    node_id: Seq<char>,
    node_ids: Seq<Seq<char>>,
    acc3: BodyAcc,
    f2: nat,
)
    requires
        f2 >= 3,
        no_extra_fields(acc3, false, false, false, false, false, false, false),
        text_at(
            s,
            ppf,
            render_payload_fields(PayloadV::Init { node_id, node_ids }),
        ),
        pcl == ppf + render_payload_fields(PayloadV::Init { node_id, node_ids }).len(),
        0 <= pcl < s.len(),
        s[pcl] == '}',
    ensures
        parse_body_tail(s, ppf, acc3, f2) == Some(
            (
                BodyAcc { node_id: Some(node_id), node_ids: Some(node_ids), ..acc3 },
                pcl + 1,
            ),
        ),
{
    lemma_plain_names();
    lemma_keys_distinct();
    let pf = render_payload_fields(PayloadV::Init { node_id, node_ids });
    let r1 = seq![','] + render_key(key_node_id());
    let rs1 = render_string(node_id);
    let r2 = seq![','] + render_key(key_node_ids());
    let ra = render_strings_arr(node_ids);
    assert(pf =~= r1 + (rs1 + (r2 + ra)));
    lemma_text_at_split(s, ppf, r1, rs1 + (r2 + ra));
    let pv1 = ppf + r1.len();
    lemma_text_at_split(s, pv1, rs1, r2 + ra);
    let q1 = pv1 + rs1.len();
    lemma_text_at_split(s, q1, r2, ra);
    let pv2 = q1 + r2.len();
    lemma_text_at_index(s, pv1, rs1, 0);
    assert(s[pv1] == '"');
    lemma_parse_render_string(node_id, s, pv1);
    let acc4 = BodyAcc { node_id: Some(node_id), ..acc3 };
    assert(apply_body_field(s, pv1, key_node_id(), acc3) == Some((acc4, q1)));
    lemma_body_tail_field(s, ppf, key_node_id(), acc3, acc4, q1, f2);
    lemma_text_at_index(s, pv2, ra, 0);
    assert(s[pv2] == '[');
    lemma_render_strings_arr_len(node_ids);
    assert(s.len() >= node_ids.len());
    lemma_parse_render_strings_arr(node_ids, s, pv2, s.len());
    let acc5 = BodyAcc { node_ids: Some(node_ids), ..acc4 };
    assert(apply_body_field(s, pv2, key_node_ids(), acc4) == Some((acc5, pcl)));
    lemma_body_tail_field(s, q1, key_node_ids(), acc4, acc5, pcl, (f2 - 1) as nat);
    lemma_body_tail_end(s, pcl, acc5, (f2 - 2) as nat);
}

/// The one field of a `broadcast` payload, closing the body.
#[verifier::rlimit(60)]
#[verifier::spinoff_prover]
proof fn lemma_body_fields_broadcast(
    s: Seq<char>,
    ppf: int,
    pcl: int,
    message: u32,
    acc3: BodyAcc,
    f2: nat,
)
    requires
        f2 >= 2,
        no_extra_fields(acc3, false, false, false, false, false, false, false),
        text_at(s, ppf, render_payload_fields(PayloadV::Broadcast { message })),
        pcl == ppf + render_payload_fields(PayloadV::Broadcast { message }).len(),
        0 <= pcl < s.len(),
        s[pcl] == '}',
    ensures
        parse_body_tail(s, ppf, acc3, f2) == Some(
            (BodyAcc { message: Some(message), ..acc3 }, pcl + 1),
        ),
{
    lemma_plain_names();
    lemma_keys_distinct();
    let pf = render_payload_fields(PayloadV::Broadcast { message });
    let r1 = seq![','] + render_key(key_message());
    let rn = render_u32(message);
    assert(pf =~= r1 + rn);
    lemma_text_at_split(s, ppf, r1, rn);
    let pv = ppf + r1.len();
    lemma_dec_digits_wf(message as nat);
    lemma_text_at_index(s, pv, rn, 0);
    lemma_digit_not_special(s[pv]);
    assert(pv + rn.len() == pcl);
    assert(!is_digit(s[pcl]));
    lemma_parse_render_u32(message, s, pv);
    assert(!null_at(s, pv));
    let accf = BodyAcc { message: Some(message), ..acc3 };
    assert(apply_body_field(s, pv, key_message(), acc3) == Some((accf, pcl)));
    lemma_body_tail_field(s, ppf, key_message(), acc3, accf, pcl, f2);
    lemma_body_tail_end(s, pcl, accf, (f2 - 1) as nat);
}

/// The one field of a `read_ok` payload, closing the body.
#[verifier::rlimit(60)]
#[verifier::spinoff_prover]
proof fn lemma_body_fields_read_ok(
    s: Seq<char>,
    ppf: int,
    pcl: int,
    messages: Seq<u32>,
    acc3: BodyAcc,
    f2: nat,
)
    requires
        f2 >= 2,
        no_extra_fields(acc3, false, false, false, false, false, false, false),
        text_at(s, ppf, render_payload_fields(PayloadV::ReadOk { messages })),
        pcl == ppf + render_payload_fields(PayloadV::ReadOk { messages }).len(),
        0 <= pcl < s.len(),
        s[pcl] == '}',
    ensures
        parse_body_tail(s, ppf, acc3, f2) == Some(
            (BodyAcc { messages: Some(messages), ..acc3 }, pcl + 1),
        ),
{
    lemma_plain_names();
    lemma_keys_distinct();
    let pf = render_payload_fields(PayloadV::ReadOk { messages });
    let r1 = seq![','] + render_key(key_messages());
    let ra = render_u32s_arr(messages);
    assert(pf =~= r1 + ra);
    lemma_text_at_split(s, ppf, r1, ra);
    let pv = ppf + r1.len();
    lemma_text_at_index(s, pv, ra, 0);
    assert(s[pv] == '[');
    lemma_render_u32s_arr_len(messages);
    assert(s.len() >= messages.len());
    lemma_parse_render_u32s_arr(messages, s, pv, s.len());
    let accf = BodyAcc { messages: Some(messages), ..acc3 };
    assert(apply_body_field(s, pv, key_messages(), acc3) == Some((accf, pcl)));
    lemma_body_tail_field(s, ppf, key_messages(), acc3, accf, pcl, f2);
    lemma_body_tail_end(s, pcl, accf, (f2 - 1) as nat);
}

/// The fields of an `error` payload, closing the body.
#[verifier::rlimit(60)]
#[verifier::spinoff_prover]
proof fn lemma_body_fields_error(
    s: Seq<char>,
    ppf: int,
    pcl: int,
    code: ErrorCode,
    text: Option<Seq<char>>,
    acc3: BodyAcc,
    f2: nat,
)
    requires
        f2 >= 3,
        acc3.text is None,
        no_extra_fields(acc3, false, false, false, false, false, false, false),
        text_at(s, ppf, render_payload_fields(PayloadV::Error { code, text })),
        pcl == ppf + render_payload_fields(PayloadV::Error { code, text }).len(),
        0 <= pcl < s.len(),
        s[pcl] == '}',
    ensures
        parse_body_tail(s, ppf, acc3, f2) == Some(
            (
                BodyAcc {
                    code: Some(code_value_spec(code)),
                    text: text,
                    seen_text: match text {
                        Some(t) => true,
                        None => false,
                    },
                    ..acc3
                },
                pcl + 1,
            ),
        ),
{
    lemma_plain_names();
    lemma_keys_distinct();
    let pf = render_payload_fields(PayloadV::Error { code, text });
    let cv = code_value_spec(code);
    let r1 = seq![','] + render_key(key_code());
    let rn = render_u32(cv);
    let tpart = match text {
        Some(t) => seq![','] + render_key(key_text()) + render_string(t),
        None => Seq::<char>::empty(),
    };
    assert(pf =~= r1 + (rn + tpart));
    lemma_text_at_split(s, ppf, r1, rn + tpart);
    let pv = ppf + r1.len();
    lemma_text_at_split(s, pv, rn, tpart);
    let q1 = pv + rn.len();
    lemma_dec_digits_wf(cv as nat);
    lemma_text_at_index(s, pv, rn, 0);
    lemma_digit_not_special(s[pv]);
    if tpart.len() > 0 {
        lemma_text_at_index(s, q1, tpart, 0);
        assert(s[q1] == ',');
    } else {
        assert(q1 == pcl);
    }
    assert(!is_digit(s[q1]));
    lemma_parse_render_u32(cv, s, pv);
    assert(!null_at(s, pv));
    let acc4 = BodyAcc { code: Some(cv), ..acc3 };
    assert(apply_body_field(s, pv, key_code(), acc3) == Some((acc4, q1)));
    lemma_body_tail_field(s, ppf, key_code(), acc3, acc4, q1, f2);
    let accf = BodyAcc {
        code: Some(cv),
        text: text,
        seen_text: match text {
            Some(t) => true,
            None => false,
        },
        ..acc3
    };
    match text {
        Some(t) => {
            assert(tpart =~= (seq![','] + render_key(key_text())) + render_string(t));
            lemma_text_at_split(s, q1, seq![','] + render_key(key_text()), render_string(t));
            let pv2 = q1 + 1 + render_key(key_text()).len();
            lemma_text_at_index(s, pv2, render_string(t), 0);
            assert(s[pv2] == '"');
            lemma_parse_render_string(t, s, pv2);
            assert(!null_at(s, pv2));
            assert(parse_opt_string(s, pv2) == Some((Some(t), pcl)));
            assert(apply_body_field(s, pv2, key_text(), acc4) == Some((accf, pcl)));
            lemma_body_tail_field(s, q1, key_text(), acc4, accf, pcl, (f2 - 1) as nat);
            lemma_body_tail_end(s, pcl, accf, (f2 - 2) as nat);
        },
        None => {
            assert(q1 == pcl);
            assert(accf == acc4);
            lemma_body_tail_end(s, q1, accf, (f2 - 1) as nat);
        },
    }
}

/// Parsing the rendering of an envelope gives the envelope back.
#[verifier::rlimit(100)]
#[verifier::spinoff_prover]
pub proof fn lemma_parse_render_envelope(v: EnvelopeV, s: Seq<char>, i: int)
    requires
        text_at(s, i, spec_encode(v)),
    ensures
        parse_envelope_at(s, i) == Some((v, i + spec_encode(v).len())),
{
    lemma_plain_names();
    lemma_keys_distinct();
    let ks = render_key(key_src());
    let rs = render_string(v.src);
    let fd = seq![','] + render_key(key_dest());
    let rd = render_string(v.dest);
    let fb = seq![','] + render_key(key_body());
    let rb = render_body(v.body);
    let re = spec_encode(v);
    assert(re =~= seq!['{'] + (ks + (rs + (fd + (rd + (fb + (rb + seq!['}'])))))));
    lemma_text_at_split(s, i, seq!['{'], ks + (rs + (fd + (rd + (fb + (rb + seq!['}']))))));
    let p1 = i + 1;
    lemma_text_at_split(s, p1, ks, rs + (fd + (rd + (fb + (rb + seq!['}'])))));
    let pv1 = p1 + ks.len();
    lemma_text_at_split(s, pv1, rs, fd + (rd + (fb + (rb + seq!['}']))));
    let c1 = pv1 + rs.len();
    lemma_text_at_split(s, c1, fd, rd + (fb + (rb + seq!['}'])));
    let pv2 = c1 + fd.len();
    lemma_text_at_split(s, pv2, rd, fb + (rb + seq!['}']));
    let c2 = pv2 + rd.len();
    lemma_text_at_split(s, c2, fb, rb + seq!['}']);
    let pv3 = c2 + fb.len();
    lemma_text_at_split(s, pv3, rb, seq!['}']);
    let pcl = pv3 + rb.len();
    lemma_text_at_index(s, i, seq!['{'], 0);
    assert(s[i] == '{');
    lemma_text_at_index(s, p1, ks, 0);
    assert(s[p1] == '"');
    assert(skip_ws(s, p1) == p1);
    lemma_text_at_index(s, pv1, rs, 0);
    assert(s[pv1] == '"');
    lemma_text_at_index(s, pv2, rd, 0);
    assert(s[pv2] == '"');
    lemma_text_at_index(s, pv3, rb, 0);
    assert(s[pv3] == '{');
    lemma_text_at_index(s, pcl, seq!['}'], 0);
    assert(s[pcl] == '}');

    let acc0 = EnvAcc { src: None, dest: None, body: None };
    lemma_parse_render_string(v.src, s, pv1);
    let acc1 = EnvAcc { src: Some(v.src), ..acc0 };
    assert(apply_env_field(s, pv1, key_src(), acc0) == Some((acc1, c1)));
    lemma_parse_env_field_at(s, p1, key_src(), acc0, acc1, c1);

    lemma_parse_render_string(v.dest, s, pv2);
    let acc2 = EnvAcc { dest: Some(v.dest), ..acc1 };
    assert(apply_env_field(s, pv2, key_dest(), acc1) == Some((acc2, c2)));
    lemma_env_tail_field(s, c1, key_dest(), acc1, acc2, c2, 4);

    lemma_parse_render_body(v.body, s, pv3);
    let acc3 = EnvAcc { body: Some(v.body), ..acc2 };
    assert(apply_env_field(s, pv3, key_body(), acc2) == Some((acc3, pcl)));
    lemma_env_tail_field(s, c2, key_body(), acc2, acc3, pcl, 3);

    lemma_env_tail_end(s, pcl, acc3, 2);
    assert(parse_env_tail(s, c1, acc1, 4) == Some((acc3, pcl + 1)));
    assert(parse_envelope_at(s, i) == Some(
        (EnvelopeV { src: v.src, dest: v.dest, body: v.body }, pcl + 1),
    ));
    assert(EnvelopeV { src: v.src, dest: v.dest, body: v.body } == v);
    assert(pcl + 1 == i + re.len());
}

/// Decoding an encoded envelope gives the envelope back, for every
/// envelope.
pub proof fn lemma_encode_decode(v: EnvelopeV)
    ensures
        spec_decode(spec_encode(v)) == Some(v),
{
    let s = spec_encode(v);
    assert(s.subrange(0, s.len() as int) =~= s);
    assert(text_at(s, 0, s));
    lemma_parse_render_envelope(v, s, 0);
    lemma_text_at_index(s, 0, s, 0);
    assert(s[0] == '{');
    assert(skip_ws(s, 0) == 0);
    assert(skip_ws(s, s.len() as int) == s.len());
}

/// The known `type` tags of the protocol.
pub open spec fn known_tag(t: Seq<char>) -> bool {
    ||| t == tag_echo()
    ||| t == tag_echo_ok()
    ||| t == tag_generate()
    ||| t == tag_generate_ok()
    ||| t == tag_init()
    ||| t == tag_init_ok()
    ||| t == tag_broadcast()
    ||| t == tag_broadcast_ok()
    ||| t == tag_read()
    ||| t == tag_read_ok()
    ||| t == tag_topology()
    ||| t == tag_topology_ok()
    ||| t == tag_error()
}

/// A body whose `type` tag is not one of the protocol's is never
/// assembled into a payload: decoding such a line is an error, never a
/// payload.
pub proof fn lemma_unknown_tag_rejected(acc: BodyAcc)
    requires
        (match acc.tag {
            Some(t) => !known_tag(t),
            None => true,
        }),
    ensures
        payload_of_acc(acc) is None,
        body_of_acc(acc) is None,
{
}

} // verus!
