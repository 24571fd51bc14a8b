use vstd::prelude::*;

use vstd::utf8::encode_utf8;

use crate::json::{compact_text, JsonModel};
use crate::openapi::{
    parameter_models, OperationModel, Operation, ParamLocation, ParameterModel, RequestBodyModel,
};
use crate::text::{
    ascii_lower, chars_of, eq_ignore_ascii_case, equals_ignore_ascii_case, join, join_strings, push_char,
    replace_all, replace_str, string_views, trim_end_char, trim_end_str,
};

verus! {

/// The text that stands for one character inside a single-quoted shell
/// word: a quote closes the word, adds an escaped quote, and reopens it.
pub open spec fn quote_piece(c: char) -> Seq<char> {
    if c == '\'' {
        "'\\''"@
    } else {
        seq![c]
    }
}

/// `s` with every single quote written as `'\''`.
pub open spec fn quote_escaped(s: Seq<char>) -> Seq<char>
    decreases s.len(),
{
    if s.len() == 0 {
        Seq::empty()
    } else {
        quote_piece(s[0]) + quote_escaped(s.drop_first())
    }
}

/// `s` as one single-quoted shell word.
pub open spec fn shell_quoted(s: Seq<char>) -> Seq<char> {
    "'"@ + quote_escaped(s) + "'"@
}

proof fn lemma_quote_escaped_push(s: Seq<char>, c: char)
    ensures
        quote_escaped(s.push(c)) == quote_escaped(s) + quote_piece(c),
    decreases s.len(),
{
    if s.len() == 0 {
        assert(s.push(c).drop_first() =~= Seq::<char>::empty());
        assert(quote_escaped(s.push(c).drop_first()) == Seq::<char>::empty());
        assert(s.push(c)[0] == c);
        assert(quote_escaped(s.push(c)) =~= quote_piece(c));
    } else {
        assert(s.push(c).drop_first() =~= s.drop_first().push(c));
        lemma_quote_escaped_push(s.drop_first(), c);
        assert(quote_escaped(s.push(c)) =~= quote_escaped(s) + quote_piece(c));
    }
}

/// Wraps a value in single quotes for safe use as a shell argument,
/// writing any embedded single quote as `'\''`.
pub fn shell_quote(s: &str) -> (r: String)
    ensures
        r@ == shell_quoted(s@),
{
    let cs = chars_of(s);
    let mut out = String::new();
    out.append("'");
    let mut i: usize = 0;
    while i < cs.len()
        invariant
            i <= cs@.len(),
            out@ == "'"@ + quote_escaped(cs@.take(i as int)),
        decreases cs@.len() - i,
    {
        proof {
            lemma_quote_escaped_push(cs@.take(i as int), cs@[i as int]);
            assert(cs@.take(i as int).push(cs@[i as int]) =~= cs@.take(i + 1));
        }
        if cs[i] == '\'' {
            out.append("'\\''");
        } else {
            push_char(&mut out, cs[i]);
        }
        i = i + 1;
    }
    out.append("'");
    assert(cs@.take(cs@.len() as int) =~= s@);
    out
}

/// A byte that a query component keeps as it is: an ASCII letter or
/// digit, or one of `-`, `_`, `.`, `~`, `@`, `:`.
pub open spec fn is_unreserved(b: u8) -> bool {
    ||| 0x41 <= b <= 0x5a
    ||| 0x61 <= b <= 0x7a
    ||| 0x30 <= b <= 0x39
    ||| b == 0x2d
    ||| b == 0x5f
    ||| b == 0x2e
    ||| b == 0x7e
    ||| b == 0x40
    ||| b == 0x3a
}

/// The upper-case hexadecimal digit for `d`.
pub open spec fn hex_digit(d: u8) -> char {
    if d < 10 {
        (0x30 + d) as char
    } else {
        (0x41 + d - 10) as char
    }
}

/// The text for one byte of a query component: the byte itself where it
/// is unreserved, else `%` and its two upper-case hexadecimal digits.
pub open spec fn encode_byte(b: u8) -> Seq<char> {
    if is_unreserved(b) {
        seq![b as char]
    } else {
        seq!['%', hex_digit(b / 16), hex_digit(b % 16)]
    }
}

/// The percent-encoding of `bytes`.
pub open spec fn percent_encoded(bytes: Seq<u8>) -> Seq<char>
    decreases bytes.len(),
{
    if bytes.len() == 0 {
        Seq::empty()
    } else {
        encode_byte(bytes[0]) + percent_encoded(bytes.drop_first())
    }
}

proof fn lemma_percent_encoded_push(bytes: Seq<u8>, b: u8)
    ensures
        percent_encoded(bytes.push(b)) == percent_encoded(bytes) + encode_byte(b),
    decreases bytes.len(),
{
    if bytes.len() == 0 {
        assert(bytes.push(b).drop_first() =~= Seq::<u8>::empty());
        assert(percent_encoded(bytes.push(b).drop_first()) == Seq::<char>::empty());
        assert(bytes.push(b)[0] == b);
        assert(percent_encoded(bytes.push(b)) =~= encode_byte(b));
    } else {
        assert(bytes.push(b).drop_first() =~= bytes.drop_first().push(b));
        lemma_percent_encoded_push(bytes.drop_first(), b);
        assert(percent_encoded(bytes.push(b)) =~= percent_encoded(bytes) + encode_byte(b));
    }
}

fn hex_char(d: u8) -> (r: char)
    requires
        d < 16,
    ensures
        r == hex_digit(d),
{
    if d < 10 {
        (0x30 + d) as char
    } else {
        (0x41 + d - 10) as char
    }
}

/// Percent-encodes a query-string component, byte by byte of its UTF-8
/// form.  Keeps unreserved characters plus `@` and `:` as they are.
pub fn percent_encode(s: &str) -> (r: String)
    ensures
        r@ == percent_encoded(encode_utf8(s@)),
{
    let bytes = s.as_bytes();
    let mut out = String::new();
    let mut i: usize = 0;
    while i < bytes.len()
        invariant
            i <= bytes@.len(),
            out@ == percent_encoded(bytes@.take(i as int)),
        decreases bytes@.len() - i,
    {
        let b = bytes[i];
        proof {
            lemma_percent_encoded_push(bytes@.take(i as int), b);
            assert(bytes@.take(i as int).push(b) =~= bytes@.take(i + 1));
        }
        if (0x41 <= b && b <= 0x5a) || (0x61 <= b && b <= 0x7a) || (0x30 <= b && b <= 0x39) || b
            == 0x2d || b == 0x5f || b == 0x2e || b == 0x7e || b == 0x40 || b == 0x3a {
            push_char(&mut out, b as char);
        } else {
            push_char(&mut out, '%');
            push_char(&mut out, hex_char(b / 16));
            push_char(&mut out, hex_char(b % 16));
        }
        assert(out@ =~= percent_encoded(bytes@.take(i as int)) + encode_byte(b));
        i = i + 1;
    }
    assert(bytes@.take(bytes@.len() as int) =~= bytes@);
    out
}


/// `Some(seq![c] + v)` for `Some(v)`.
pub open spec fn prepend_char(c: char, rest: Option<Seq<char>>) -> Option<Seq<char>> {
    match rest {
        Some(v) => Some(seq![c] + v),
        None => None,
    }
}

/// The value that a POSIX shell gives a word built from single-quoted
/// strings, backslash escapes and other characters; `in_quote` tells
/// whether a single-quoted string is open.  `None` where the word ends
/// inside a quoted string.
pub open spec fn shell_word_value(t: Seq<char>, in_quote: bool) -> Option<Seq<char>>
    decreases t.len(),
{
    if t.len() == 0 {
        if in_quote {
            None
        } else {
            Some(Seq::empty())
        }
    } else if in_quote {
        if t[0] == '\'' {
            shell_word_value(t.drop_first(), false)
        } else {
            prepend_char(t[0], shell_word_value(t.drop_first(), true))
        }
    } else if t[0] == '\'' {
        shell_word_value(t.drop_first(), true)
    } else if t[0] == '\\' && t.len() >= 2 {
        prepend_char(t[1], shell_word_value(t.skip(2), false))
    } else {
        prepend_char(t[0], shell_word_value(t.drop_first(), false))
    }
}

proof fn lemma_quoted_tail_value(s: Seq<char>)
    ensures
        shell_word_value(quote_escaped(s) + "'"@, true) == Some(s),
    decreases s.len(),
{
    reveal_strlit("'");
    reveal_strlit("'\\''");
    reveal_strlit("\\''");
    let t = quote_escaped(s) + "'"@;
    if s.len() == 0 {
        assert(t =~= "'"@);
        assert(t.drop_first() =~= Seq::<char>::empty());
        assert(shell_word_value(t, true) == shell_word_value(t.drop_first(), false));
        assert(s =~= Seq::<char>::empty());
    } else {
        let rest = s.drop_first();
        lemma_quoted_tail_value(rest);
        let tail = quote_escaped(rest) + "'"@;
        if s[0] == '\'' {
            assert(t =~= "'\\''"@ + tail);
            let t1 = t.drop_first();
            assert(t1 =~= "\\''"@ + tail);
            assert(t1[0] == '\\' && t1[1] == '\'');
            let t2 = t1.skip(2);
            assert(t2 =~= "'"@ + tail);
            assert(t2.drop_first() =~= tail);
            assert(shell_word_value(t2, false) == shell_word_value(tail, true));
            assert(shell_word_value(t1, false) == prepend_char('\'', shell_word_value(t2, false)));
            assert(shell_word_value(t, true) == shell_word_value(t1, false));
            assert(seq!['\''] + rest =~= s);
        } else {
            assert(t =~= seq![s[0]] + tail);
            assert(t.drop_first() =~= tail);
            assert(shell_word_value(t, true) == prepend_char(s[0], shell_word_value(tail, true)));
            assert(seq![s[0]] + rest =~= s);
        }
    }
}

/// A shell reads the quoted word back as the text that was quoted: quoting is
/// undone exactly, whatever quotes the text holds.
pub proof fn lemma_shell_quote_round_trip(s: Seq<char>)
    ensures
        shell_word_value(shell_quoted(s), false) == Some(s),
{
    reveal_strlit("'");
    lemma_quoted_tail_value(s);
    let t = shell_quoted(s);
    assert(t =~= "'"@ + (quote_escaped(s) + "'"@));
    assert(t.drop_first() =~= quote_escaped(s) + "'"@);
}

/// The value of a hexadecimal digit, either case.
pub open spec fn hex_value(c: char) -> Option<u8> {
    if '0' <= c <= '9' {
        Some(((c as u32) - 0x30) as u8)
    } else if 'A' <= c <= 'F' {
        Some(((c as u32) - 0x41 + 10) as u8)
    } else if 'a' <= c <= 'f' {
        Some(((c as u32) - 0x61 + 10) as u8)
    } else {
        None
    }
}

/// The bytes that a percent-encoded text stands for: `%` with two
/// hexadecimal digits is the byte they spell, any other character is
/// itself.
pub open spec fn percent_decoded(t: Seq<char>) -> Seq<u8>
    decreases t.len(),
{
    if t.len() == 0 {
        Seq::empty()
    } else if t[0] == '%' && t.len() >= 3 && hex_value(t[1]) is Some && hex_value(t[2]) is Some {
        seq![(hex_value(t[1])->0 * 16 + hex_value(t[2])->0) as u8] + percent_decoded(t.skip(3))
    } else {
        seq![t[0] as u8] + percent_decoded(t.drop_first())
    }
}

proof fn lemma_decode_encoded_byte(b: u8, rest: Seq<char>)
    ensures
        percent_decoded(encode_byte(b) + rest) == seq![b] + percent_decoded(rest),
{
    let t = encode_byte(b) + rest;
    if is_unreserved(b) {
        assert(t[0] == b as char);
        assert(t.drop_first() =~= rest);
    } else {
        let hi = b / 16;
        let lo = b % 16;
        assert(hex_value(hex_digit(hi)) == Some(hi));
        assert(hex_value(hex_digit(lo)) == Some(lo));
        assert(t[0] == '%' && t[1] == hex_digit(hi) && t[2] == hex_digit(lo));
        assert(t.skip(3) =~= rest);
        assert((hi * 16 + lo) as u8 == b);
    }
}

/// Decoding a percent-encoded component gives back exactly the bytes
/// that were encoded.
pub proof fn lemma_percent_encode_round_trip(bytes: Seq<u8>)
    ensures
        percent_decoded(percent_encoded(bytes)) == bytes,
    decreases bytes.len(),
{
    if bytes.len() > 0 {
        lemma_percent_encode_round_trip(bytes.drop_first());
        lemma_decode_encoded_byte(bytes[0], percent_encoded(bytes.drop_first()));
        assert(seq![bytes[0]] + bytes.drop_first() =~= bytes);
    }
}

/// A character that may stand in an encoded query component: `%` or an
/// unreserved ASCII character.
pub open spec fn is_component_char(c: char) -> bool {
    c == '%' || ((c as u32) < 0x80 && is_unreserved(c as u8))
}

/// An encoded component holds only unreserved characters and `%`: never
/// a space, `&`, `=`, `#` or a quote.
pub proof fn lemma_percent_encoded_chars(bytes: Seq<u8>)
    ensures
        forall|i: int|
            0 <= i < percent_encoded(bytes).len() ==> is_component_char(
                #[trigger] percent_encoded(bytes)[i],
            ),
    decreases bytes.len(),
{
    if bytes.len() > 0 {
        lemma_percent_encoded_chars(bytes.drop_first());
        let e = encode_byte(bytes[0]);
        let rest = percent_encoded(bytes.drop_first());
        assert(forall|d: u8| d < 16 ==> is_component_char(#[trigger] hex_digit(d)));
        assert(forall|i: int| 0 <= i < e.len() ==> is_component_char(#[trigger] e[i]));
        assert forall|i: int| 0 <= i < percent_encoded(bytes).len() implies is_component_char(
            #[trigger] percent_encoded(bytes)[i],
        ) by {
            if i < e.len() {
                assert(percent_encoded(bytes)[i] == e[i]);
            } else {
                assert(percent_encoded(bytes)[i] == rest[i - e.len()]);
            }
        }
    }
}


/// A character that RFC 3986 lets stand unencoded in a query component as
/// this encoder writes it: an ASCII letter or digit, or one of `-`, `_`,
/// `.`, `~`, `@`, `:`; or the `%` that starts an escape.
pub open spec fn is_query_safe(c: char) -> bool {
    ||| c == '%'
    ||| ('A' <= c && c <= 'Z')
    ||| ('a' <= c && c <= 'z')
    ||| ('0' <= c && c <= '9')
    ||| c == '-'
    ||| c == '_'
    ||| c == '.'
    ||| c == '~'
    ||| c == '@'
    ||| c == ':'
}

/// Every character of a percent-encoded component is query-safe: in
/// particular it never holds a `#`, `&`, `=`, `+`, `?`, `/`, space or quote,
/// whatever the text held.
pub proof fn lemma_percent_encoded_is_query_safe(bytes: Seq<u8>)
    ensures
        forall|i: int|
            0 <= i < percent_encoded(bytes).len() ==> is_query_safe(
                #[trigger] percent_encoded(bytes)[i],
            ),
        !percent_encoded(bytes).contains('#'),
        !percent_encoded(bytes).contains('&'),
        !percent_encoded(bytes).contains('='),
        !percent_encoded(bytes).contains(' '),
    decreases bytes.len(),
{
    if bytes.len() > 0 {
        lemma_percent_encoded_is_query_safe(bytes.drop_first());
        let b = bytes[0];
        let e = encode_byte(b);
        let rest = percent_encoded(bytes.drop_first());
        assert forall|d: u8| d < 16 implies is_query_safe(#[trigger] hex_digit(d)) by {
            if d < 10 {
                assert(('0' as u32) <= ((0x30 + d) as char) as u32 <= ('9' as u32));
            } else {
                assert(('A' as u32) <= ((0x41 + d - 10) as char) as u32 <= ('Z' as u32));
            }
        }
        assert forall|i: int| 0 <= i < e.len() implies is_query_safe(#[trigger] e[i]) by {
            if is_unreserved(b) {
                assert(e[i] == b as char);
            } else {
                assert(b / 16 < 16 && b % 16 < 16);
            }
        }
        assert forall|i: int| 0 <= i < percent_encoded(bytes).len() implies is_query_safe(
            #[trigger] percent_encoded(bytes)[i],
        ) by {
            if i < e.len() {
                assert(percent_encoded(bytes)[i] == e[i]);
            } else {
                assert(percent_encoded(bytes)[i] == rest[i - e.len()]);
            }
        }
    }
}

/// One byte of a component: a query-safe ASCII character other than `%`
/// stays as it is; any other byte becomes `%` and two upper-case
/// hexadecimal digits, high digit first, that spell it.
pub proof fn lemma_percent_encoded_byte(b: u8)
    ensures
        b < 0x80 && b != 0x25 && is_query_safe(b as char) ==> percent_encoded(seq![b]) == seq![
            b as char,
        ],
        !(b < 0x80 && b != 0x25 && is_query_safe(b as char)) ==> {
            let t = percent_encoded(seq![b]);
            &&& t.len() == 3
            &&& t[0] == '%'
            &&& hex_value(t[1]) == Some(b / 16)
            &&& hex_value(t[2]) == Some(b % 16)
            &&& !('a' <= t[1] && t[1] <= 'z')
            &&& !('a' <= t[2] && t[2] <= 'z')
        },
{
    assert(seq![b].drop_first() =~= Seq::<u8>::empty());
    assert(percent_encoded(Seq::<u8>::empty()) == Seq::<char>::empty());
    assert(percent_encoded(seq![b]) == encode_byte(b) + percent_encoded(Seq::<u8>::empty()));
    assert(percent_encoded(seq![b]) =~= encode_byte(b));
    let c = b as char;
    assert(b < 0x80 ==> (c as u32) == b);
    assert(b < 0x80 ==> (is_query_safe(c) && b != 0x25 <==> is_unreserved(b)));
}

/// The placeholder `{name}` that stands for a path parameter in a path template.
pub open spec fn path_placeholder(name: Seq<char>) -> Seq<char> {
    "{"@ + name + "}"@
}

/// The path with the value of each path parameter put in place of its
/// placeholder, parameter by parameter in order.
pub open spec fn substituted_path(path: Seq<char>, params: Seq<ParameterModel>) -> Seq<char>
    decreases params.len(),
{
    if params.len() == 0 {
        path
    } else {
        let prev = substituted_path(path, params.drop_last());
        let p = params.last();
        if p.location == ParamLocation::Path {
            replace_all(prev, path_placeholder(p.name), p.value)
        } else {
            prev
        }
    }
}

/// `name=value` for each query parameter in order, both percent-encoded.
pub open spec fn query_pairs(params: Seq<ParameterModel>) -> Seq<Seq<char>>
    decreases params.len(),
{
    if params.len() == 0 {
        Seq::empty()
    } else {
        let p = params.last();
        query_pairs(params.drop_last()) + if p.location == ParamLocation::Query {
            seq![query_pair(p.name, p.value)]
        } else {
            Seq::empty()
        }
    }
}

/// The request URL: the base URL without trailing slashes, the path with
/// its path parameters filled in, and the query parameters after `?`.
pub open spec fn url_text(op: OperationModel, base_url: Seq<char>) -> Seq<char> {
    let pairs = query_pairs(op.parameters);
    trim_end_char(base_url, '/') + substituted_path(op.path, op.parameters) + if pairs.len() == 0 {
        Seq::empty()
    } else {
        "?"@ + join(pairs, "&"@)
    }
}

fn build_url(op: &Operation, base_url: &str) -> (r: String)
    ensures
        r@ == url_text(op@, base_url@),
{
    let ghost params = parameter_models(op.parameters@);
    let mut path = op.path.clone();
    let mut pairs: Vec<String> = Vec::new();
    let mut i: usize = 0;
    while i < op.parameters.len()
        invariant
            params == parameter_models(op.parameters@),
            i <= params.len(),
            path@ == substituted_path(op.path@, params.take(i as int)),
            string_views(pairs@) == query_pairs(params.take(i as int)),
        decreases params.len() - i,
    {
        let p = &op.parameters[i];
        assert(params.take(i + 1).drop_last() =~= params.take(i as int));
        assert(params.take(i + 1).last() == p@);
        let ghost before = pairs@;
        if p.location == ParamLocation::Path {
            let mut placeholder = String::new();
            proof {
                reveal_strlit("{");
            }
            placeholder.append("{");
            placeholder.append(p.name.as_str());
            placeholder.append("}");
            path = replace_str(path.as_str(), placeholder.as_str(), p.value.as_str());
        } else if p.location == ParamLocation::Query {
            let mut pair = percent_encode(p.name.as_str());
            pair.append("=");
            let v = percent_encode(p.value.as_str());
            pair.append(v.as_str());
            pairs.push(pair);
            assert(string_views(pairs@) =~= string_views(before) + seq![pair@]);
        }
        i = i + 1;
    }
    assert(params.take(params.len() as int) =~= params);
    let mut url = trim_end_str(base_url, '/');
    url.append(path.as_str());
    if pairs.len() > 0 {
        url.append("?");
        let q = join_strings(&pairs, "&");
        url.append(q.as_str());
    }
    url
}

/// A `-H` line for each header parameter, in order.
pub open spec fn header_lines(params: Seq<ParameterModel>) -> Seq<Seq<char>>
    decreases params.len(),
{
    if params.len() == 0 {
        Seq::empty()
    } else {
        let p = params.last();
        header_lines(params.drop_last()) + if p.location == ParamLocation::Header {
            seq!["-H "@ + shell_quoted(p.name + ": "@ + p.value)]
        } else {
            Seq::empty()
        }
    }
}

/// The header parameters among `params`, in their order.
pub open spec fn header_params(params: Seq<ParameterModel>) -> Seq<ParameterModel> {
    params.filter(|p: ParameterModel| p.location == ParamLocation::Header)
}

proof fn lemma_header_lines_per_parameter(params: Seq<ParameterModel>)
    ensures
        header_lines(params).len() == header_params(params).len(),
        forall|i: int|
            0 <= i < header_params(params).len() ==> #[trigger] header_lines(params)[i] == "-H "@
                + shell_quoted(header_params(params)[i].name + ": "@ + header_params(params)[i].value),
    decreases params.len(),
{
    if params.len() > 0 {
        let prev = params.drop_last();
        lemma_header_lines_per_parameter(prev);
        reveal(Seq::filter);
        assert(header_params(params) == if params.last().location == ParamLocation::Header {
            header_params(prev).push(params.last())
        } else {
            header_params(prev)
        });
        let hs = header_params(params);
        assert forall|i: int| 0 <= i < hs.len() implies #[trigger] header_lines(params)[i] == "-H "@
            + shell_quoted(hs[i].name + ": "@ + hs[i].value) by {
            if i < header_params(prev).len() {
                assert(header_lines(params)[i] == header_lines(prev)[i]);
                assert(hs[i] == header_params(prev)[i]);
            }
        }
    }
}

/// The command has one `-H 'name: value'` line for each header parameter
/// of the operation, every one of them, right after the `curl` line and in
/// the order of the parameters; then comes the default `Accept` line unless
/// one of them is named `Accept`, then the body lines.
pub proof fn lemma_header_parameter_lines(op: OperationModel, base_url: Seq<char>)
    ensures
        curl_lines(op, base_url).len() == 1 + header_params(op.parameters).len() + (if has_accept_header(
            op.parameters,
        ) {
            0int
        } else {
            1int
        }) + body_lines(op.request_body).len(),
        forall|i: int|
            0 <= i < header_params(op.parameters).len() ==> #[trigger] curl_lines(op, base_url)[i
                + 1] == "-H "@ + shell_quoted(
                header_params(op.parameters)[i].name + ": "@ + header_params(op.parameters)[i].value,
            ),
{
    lemma_header_lines_per_parameter(op.parameters);
    let hl = header_lines(op.parameters);
    assert forall|i: int| 0 <= i < hl.len() implies #[trigger] curl_lines(op, base_url)[i + 1]
        == hl[i] by {}
}

/// A JSON request body adds exactly two lines at the end of the command,
/// `-H 'Content-Type: <type>'` and `-d '<compact JSON>'`, to what the same
/// operation without a body gives; a body that is not JSON adds nothing.
pub proof fn lemma_json_body_lines(
    op: OperationModel,
    base_url: Seq<char>,
    content_type: Seq<char>,
    body: Option<JsonModel>,
)
    ensures
        ({
            let with_body = OperationModel {
                request_body: Some(RequestBodyModel { content_type, json_body: body }),
                ..op
            };
            let without = OperationModel { request_body: None, ..op };
            curl_lines(with_body, base_url) == curl_lines(without, base_url) + match body {
                Some(j) => seq![
                    "-H "@ + shell_quoted("Content-Type: "@ + content_type),
                    "-d "@ + shell_quoted(compact_text(j)),
                ],
                None => Seq::<Seq<char>>::empty(),
            }
        }),
{
    let with_body = OperationModel {
        request_body: Some(RequestBodyModel { content_type, json_body: body }),
        ..op
    };
    let without = OperationModel { request_body: None, ..op };
    assert(url_text(with_body, base_url) == url_text(without, base_url));
    assert(curl_lines(with_body, base_url) =~= curl_lines(without, base_url) + body_lines(
        with_body.request_body,
    ));
}

/// Some header parameter is named `Accept`, in any case.
pub open spec fn has_accept_header(params: Seq<ParameterModel>) -> bool {
    exists|i: int|
        0 <= i < params.len() && #[trigger] params[i].location == ParamLocation::Header
            && eq_ignore_ascii_case(params[i].name, "accept"@)
}

/// A header parameter named `Accept`, in any case, counts as the Accept
/// header: `Accept`, `accept` and `ACCEPT` alike.  A parameter of another
/// location never does, and neither does a name that is not six
/// characters long.
pub proof fn lemma_accept_header_names(params: Seq<ParameterModel>, i: int)
    ensures
        0 <= i < params.len() && params[i].location == ParamLocation::Header && (params[i].name
            == "Accept"@ || params[i].name == "accept"@ || params[i].name == "ACCEPT"@)
            ==> has_accept_header(params),
        (forall|j: int|
            0 <= j < params.len() && #[trigger] params[j].location == ParamLocation::Header
                ==> params[j].name.len() != 6) ==> !has_accept_header(params),
{
    reveal_strlit("Accept");
    reveal_strlit("accept");
    reveal_strlit("ACCEPT");
    if 0 <= i < params.len() && params[i].location == ParamLocation::Header && (params[i].name
        == "Accept"@ || params[i].name == "accept"@ || params[i].name == "ACCEPT"@) {
        let n = params[i].name;
        assert forall|k: int| 0 <= k < n.len() implies ascii_lower(#[trigger] n[k]) == ascii_lower(
            "accept"@[k],
        ) by {
            assert(0 <= k < 6);
        }
        assert(eq_ignore_ascii_case(params[i].name, "accept"@));
    }
}

/// The `Content-Type` and `-d` lines of a JSON request body; none where
/// there is no body or no JSON body.
pub open spec fn body_lines(body: Option<RequestBodyModel>) -> Seq<Seq<char>> {
    match body {
        Some(b) => match b.json_body {
            Some(j) => seq![
                "-H "@ + shell_quoted("Content-Type: "@ + b.content_type),
                "-d "@ + shell_quoted(compact_text(j)),
            ],
            None => Seq::empty(),
        },
        None => Seq::empty(),
    }
}

/// The lines of the command: `curl -X METHOD 'url'`, the header
/// parameters, a default `Accept: application/json` unless a header
/// parameter is named `Accept`, then the JSON body lines.
pub open spec fn curl_lines(op: OperationModel, base_url: Seq<char>) -> Seq<Seq<char>> {
    seq!["curl -X "@ + op.method + " "@ + shell_quoted(url_text(op, base_url))] + header_lines(
        op.parameters,
    ) + (if has_accept_header(op.parameters) {
        Seq::empty()
    } else {
        seq!["-H "@ + shell_quoted("Accept: application/json"@)]
    }) + body_lines(op.request_body)
}

/// The command as one text, its lines continued with a backslash.
#[verifier::opaque]
pub open spec fn curl_text(op: OperationModel, base_url: Seq<char>) -> Seq<char> {
    join(curl_lines(op, base_url), " \\\n  "@)
}

/// Renders one [`Operation`] as a multi-line, copy-pasteable `curl`
/// command: `-X METHOD 'url'`, then a `-H` per header parameter, then a
/// default `Accept: application/json` (unless the spec already defines
/// its own `Accept` header parameter), then, for a JSON request body,
/// a `Content-Type` header and a `-d` with the resolved example body.
pub fn render_curl(op: &Operation, base_url: &str) -> (r: String)
    ensures
        r@ == curl_text(op@, base_url@),
{
    let ghost params = parameter_models(op.parameters@);
    let mut lines: Vec<String> = Vec::new();
    let url = build_url(op, base_url);
    let mut first = String::new();
    first.append("curl -X ");
    first.append(op.method.as_str());
    first.append(" ");
    let quoted_url = shell_quote(url.as_str());
    first.append(quoted_url.as_str());
    lines.push(first);
    assert(string_views(lines@) =~= seq![first@]);
    let mut has_accept = false;
    let mut i: usize = 0;
    while i < op.parameters.len()
        invariant
            params == parameter_models(op.parameters@),
            i <= params.len(),
            string_views(lines@) == seq![first@] + header_lines(params.take(i as int)),
            has_accept == has_accept_header(params.take(i as int)),
        decreases params.len() - i,
    {
        let p = &op.parameters[i];
        assert(params.take(i + 1).drop_last() =~= params.take(i as int));
        assert(params.take(i + 1).last() == p@);
        assert(params.take(i + 1)[i as int] == p@);
        let ghost before = lines@;
        if p.location == ParamLocation::Header {
            let mut h = String::new();
            h.append(p.name.as_str());
            h.append(": ");
            h.append(p.value.as_str());
            let q = shell_quote(h.as_str());
            let mut line = String::new();
            line.append("-H ");
            line.append(q.as_str());
            lines.push(line);
            assert(string_views(lines@) =~= string_views(before) + seq![line@]);
            if equals_ignore_ascii_case(p.name.as_str(), "accept") {
                has_accept = true;
            }
        }
        proof {
            let next = params.take(i + 1);
            if has_accept_header(params.take(i as int)) {
                let k = choose|k: int|
                    0 <= k < params.take(i as int).len()
                        && #[trigger] params.take(i as int)[k].location == ParamLocation::Header
                        && eq_ignore_ascii_case(params.take(i as int)[k].name, "accept"@);
                assert(next[k] == params.take(i as int)[k]);
            }
            if has_accept_header(next) {
                let k = choose|k: int|
                    0 <= k < next.len() && #[trigger] next[k].location == ParamLocation::Header
                        && eq_ignore_ascii_case(next[k].name, "accept"@);
                if k < i {
                    assert(params.take(i as int)[k] == next[k]);
                }
            }
        }
        i = i + 1;
    }
    assert(params.take(params.len() as int) =~= params);
    if !has_accept {
        let q = shell_quote("Accept: application/json");
        let mut line = String::new();
        line.append("-H ");
        line.append(q.as_str());
        let ghost before = lines@;
        lines.push(line);
        assert(string_views(lines@) =~= string_views(before) + seq![line@]);
    }
    if let Some(body) = &op.request_body {
        if let Some(json) = &body.json_body {
            let mut ct = String::new();
            ct.append("Content-Type: ");
            ct.append(body.content_type.as_str());
            let q = shell_quote(ct.as_str());
            let mut line = String::new();
            line.append("-H ");
            line.append(q.as_str());
            let ghost before = lines@;
            lines.push(line);
            assert(string_views(lines@) =~= string_views(before) + seq![line@]);
            let text = json.to_compact_string();
            let q2 = shell_quote(text.as_str());
            let mut line2 = String::new();
            line2.append("-d ");
            line2.append(q2.as_str());
            let ghost before2 = lines@;
            lines.push(line2);
            assert(string_views(lines@) =~= string_views(before2) + seq![line2@]);
        }
    }
    assert(string_views(lines@) =~= curl_lines(op@, base_url@));
    proof {
        reveal(curl_text);
    }
    join_strings(&lines, " \\\n  ")
}


/// The base URL to use: the one given on the command line, else the
/// spec's first server URL, else `http://localhost:8080`.
pub open spec fn chosen_base_url(given: Option<Seq<char>>, from_spec: Option<Seq<char>>) -> Seq<char> {
    match given {
        Some(u) => u,
        None => match from_spec {
            Some(u) => u,
            None => "http://localhost:8080"@,
        },
    }
}

/// Picks the base URL: `given` where there is one, else `from_spec`, else
/// `http://localhost:8080`.
pub fn resolve_base_url(given: Option<String>, from_spec: Option<String>) -> (r: String)
    ensures
        r@ == chosen_base_url(
            match given {
                Some(u) => Some(u@),
                None => None,
            },
            match from_spec {
                Some(u) => Some(u@),
                None => None,
            },
        ),
{
    match given {
        Some(u) => u,
        None => match from_spec {
            Some(u) => u,
            None => "http://localhost:8080".to_string(),
        },
    }
}

/// The block printed for one operation: a `# METHOD path` comment line
/// and the command, each ended by a newline.
pub open spec fn operation_block(op: OperationModel, base_url: Seq<char>) -> Seq<char> {
    "# "@ + op.method + " "@ + op.path + "\n"@ + curl_text(op, base_url) + "\n"@
}

/// The blocks of the operations in order.
pub open spec fn operation_blocks(ops: Seq<OperationModel>, base_url: Seq<char>) -> Seq<Seq<char>> {
    Seq::new(ops.len(), |i: int| operation_block(ops[i], base_url))
}

/// What the program prints for a spec: the blocks of its operations,
/// separated by an empty line, or a note that there are none.
pub open spec fn listing_text(ops: Seq<OperationModel>, base_url: Seq<char>) -> Seq<char> {
    if ops.len() == 0 {
        "no operations found in spec\n"@
    } else {
        join(operation_blocks(ops, base_url), "\n"@)
    }
}

/// The listing of one operation is its `# METHOD path` line and its
/// command; each further operation adds an empty line and its own block at
/// the end; no operations give the note that there are none.
pub proof fn lemma_listing_layout(ops: Seq<OperationModel>, op: OperationModel, base_url: Seq<char>)
    ensures
        listing_text(Seq::empty(), base_url) == "no operations found in spec\n"@,
        listing_text(seq![op], base_url) == "# "@ + op.method + " "@ + op.path + "\n"@ + curl_text(
            op,
            base_url,
        ) + "\n"@,
        ops.len() > 0 ==> listing_text(ops.push(op), base_url) == listing_text(ops, base_url)
            + "\n"@ + ("# "@ + op.method + " "@ + op.path + "\n"@ + curl_text(op, base_url)
            + "\n"@),
{
    assert(operation_blocks(seq![op], base_url)[0] == operation_block(op, base_url));
    if ops.len() > 0 {
        let all = operation_blocks(ops.push(op), base_url);
        assert(all.drop_last() =~= operation_blocks(ops, base_url));
        assert(all.last() == operation_block(op, base_url));
    }
}

/// The base URL given on the command line wins over whatever the spec
/// names; the spec's own wins over the fallback `http://localhost:8080`.
pub proof fn lemma_base_url_priority(given: Seq<char>, from_spec: Option<Seq<char>>, spec_url: Seq<char>)
    ensures
        chosen_base_url(Some(given), from_spec) == given,
        chosen_base_url(None, Some(spec_url)) == spec_url,
        chosen_base_url(None, None) == "http://localhost:8080"@,
{
}

/// Renders every operation as its `# METHOD path` line and its `curl`
/// command, with an empty line between operations.
pub fn render_listing(ops: &Vec<Operation>, base_url: &str) -> (r: String)
    ensures
        r@ == listing_text(crate::openapi::operation_models(ops@), base_url@),
{
    let ghost models = crate::openapi::operation_models(ops@);
    if ops.len() == 0 {
        return "no operations found in spec\n".to_string();
    }
    let mut blocks: Vec<String> = Vec::new();
    let mut i: usize = 0;
    while i < ops.len()
        invariant
            models == crate::openapi::operation_models(ops@),
            i <= ops@.len(),
            string_views(blocks@) == operation_blocks(models, base_url@).take(i as int),
        decreases ops@.len() - i,
    {
        let op = &ops[i];
        let mut block = String::new();
        block.append("# ");
        block.append(op.method.as_str());
        block.append(" ");
        block.append(op.path.as_str());
        block.append("\n");
        let c = render_curl(op, base_url);
        block.append(c.as_str());
        block.append("\n");
        assert(models[i as int] == op@);
        assert(block@ == operation_block(op@, base_url@));
        let ghost before = blocks@;
        blocks.push(block);
        assert(string_views(blocks@) =~= string_views(before).push(block@));
        assert(operation_blocks(models, base_url@).take(i + 1) =~= operation_blocks(
            models,
            base_url@,
        ).take(i as int).push(block@));
        i = i + 1;
    }
    assert(operation_blocks(models, base_url@).take(ops@.len() as int) =~= operation_blocks(
        models,
        base_url@,
    ));
    join_strings(&blocks, "\n")
}


/// `t` cut at each `c`: the pieces between consecutive copies of `c`,
/// as a server splits a query string.
pub open spec fn split_on(t: Seq<char>, c: char) -> Seq<Seq<char>>
    decreases t.len(),
{
    if t.len() == 0 {
        seq![Seq::empty()]
    } else {
        let rest = split_on(t.drop_first(), c);
        if t[0] == c {
            seq![Seq::<char>::empty()] + rest
        } else {
            rest.update(0, seq![t[0]] + rest[0])
        }
    }
}

proof fn lemma_split_on_len(t: Seq<char>, c: char)
    ensures
        split_on(t, c).len() >= 1,
    decreases t.len(),
{
    if t.len() > 0 {
        lemma_split_on_len(t.drop_first(), c);
    }
}

proof fn lemma_split_on_free(t: Seq<char>, c: char)
    requires
        !t.contains(c),
    ensures
        split_on(t, c) == seq![t],
    decreases t.len(),
{
    if t.len() > 0 {
        assert(!t.drop_first().contains(c)) by {
            if t.drop_first().contains(c) {
                let k = choose|k: int| 0 <= k < t.drop_first().len() && t.drop_first()[k] == c;
                assert(t[k + 1] == c);
            }
        }
        lemma_split_on_free(t.drop_first(), c);
        assert(t[0] != c) by {
            if t[0] == c {
                assert(t.contains(c));
            }
        }
        assert(seq![t[0]] + t.drop_first() =~= t);
        assert(split_on(t, c) =~= seq![t]);
    } else {
        assert(t =~= Seq::<char>::empty());
    }
}

proof fn lemma_split_on_append(x: Seq<char>, c: char, q: Seq<char>)
    requires
        !q.contains(c),
    ensures
        split_on(x + seq![c] + q, c) == split_on(x, c) + seq![q],
    decreases x.len(),
{
    let t = x + seq![c] + q;
    if x.len() == 0 {
        lemma_split_on_free(q, c);
        assert(t =~= seq![c] + q);
        assert(t.drop_first() =~= q);
        assert(split_on(t, c) =~= seq![Seq::<char>::empty(), q]);
    } else {
        let x1 = x.drop_first();
        lemma_split_on_append(x1, c, q);
        lemma_split_on_len(x1, c);
        assert(t.drop_first() =~= x1 + seq![c] + q);
        assert(t[0] == x[0]);
        if x[0] == c {
            assert(split_on(t, c) =~= split_on(x, c) + seq![q]);
        } else {
            let rx = split_on(x1, c);
            assert((rx + seq![q]).update(0, seq![x[0]] + (rx + seq![q])[0]) =~= rx.update(
                0,
                seq![x[0]] + rx[0],
            ) + seq![q]);
        }
    }
}

/// Parts that hold no `c`, joined with `c`, are cut back into the same parts.
pub proof fn lemma_split_join(parts: Seq<Seq<char>>, c: char)
    requires
        parts.len() > 0,
        forall|i: int| 0 <= i < parts.len() ==> !(#[trigger] parts[i]).contains(c),
    ensures
        split_on(join(parts, seq![c]), c) == parts,
    decreases parts.len(),
{
    if parts.len() == 1 {
        lemma_split_on_free(parts[0], c);
        assert(parts =~= seq![parts[0]]);
    } else {
        let init = parts.drop_last();
        assert forall|i: int| 0 <= i < init.len() implies !(#[trigger] init[i]).contains(c) by {
            assert(init[i] == parts[i]);
        }
        lemma_split_join(init, c);
        assert(!parts.last().contains(c));
        lemma_split_on_append(join(init, seq![c]), c, parts.last());
        assert(init + seq![parts.last()] =~= parts);
    }
}

/// The `name=value` text of one query parameter.
pub open spec fn query_pair(name: Seq<char>, value: Seq<char>) -> Seq<char> {
    percent_encoded(encode_utf8(name)) + "="@ + percent_encoded(encode_utf8(value))
}

proof fn lemma_component_free_of(bytes: Seq<u8>, c: char)
    requires
        c == '&' || c == '=',
    ensures
        !percent_encoded(bytes).contains(c),
{
    lemma_percent_encoded_chars(bytes);
    if percent_encoded(bytes).contains(c) {
        let k = choose|k: int| 0 <= k < percent_encoded(bytes).len() && percent_encoded(bytes)[k] == c;
        assert(is_component_char(percent_encoded(bytes)[k]));
    }
}

/// A server reads a query parameter back: the pair splits at `=` into
/// two parts that decode to the bytes of the name and of the value.
pub proof fn lemma_query_pair_reads_back(name: Seq<char>, value: Seq<char>)
    ensures
        split_on(query_pair(name, value), '=').len() == 2,
        percent_decoded(split_on(query_pair(name, value), '=')[0]) == encode_utf8(name),
        percent_decoded(split_on(query_pair(name, value), '=')[1]) == encode_utf8(value),
{
    reveal_strlit("=");
    let n = percent_encoded(encode_utf8(name));
    let v = percent_encoded(encode_utf8(value));
    lemma_component_free_of(encode_utf8(name), '=');
    lemma_component_free_of(encode_utf8(value), '=');
    lemma_split_on_append(n, '=', v);
    lemma_split_on_free(n, '=');
    assert(query_pair(name, value) =~= n + seq!['='] + v);
    lemma_percent_encode_round_trip(encode_utf8(name));
    lemma_percent_encode_round_trip(encode_utf8(value));
}

/// The query string splits at `&` into exactly the query parameters'
/// pairs, in order: no encoded name or value holds an `&`.
pub proof fn lemma_query_reads_back(params: Seq<ParameterModel>)
    requires
        query_pairs(params).len() > 0,
    ensures
        split_on(join(query_pairs(params), "&"@), '&') == query_pairs(params),
    decreases params.len(),
{
    reveal_strlit("&");
    reveal_strlit("=");
    assert("&"@ =~= seq!['&']);
    lemma_query_pairs_free(params);
    lemma_split_join(query_pairs(params), '&');
}

proof fn lemma_query_pairs_free(params: Seq<ParameterModel>)
    ensures
        forall|i: int|
            0 <= i < query_pairs(params).len() ==> !(#[trigger] query_pairs(params)[i]).contains('&'),
    decreases params.len(),
{
    reveal_strlit("=");
    if params.len() > 0 {
        lemma_query_pairs_free(params.drop_last());
        let p = params.last();
        let prev = query_pairs(params.drop_last());
        let all = query_pairs(params);
        assert forall|i: int| 0 <= i < all.len() implies !(#[trigger] all[i]).contains('&') by {
            if i < prev.len() {
                assert(all[i] == prev[i]);
            } else {
                let n = percent_encoded(encode_utf8(p.name));
                let v = percent_encoded(encode_utf8(p.value));
                lemma_component_free_of(encode_utf8(p.name), '&');
                lemma_component_free_of(encode_utf8(p.value), '&');
                assert(all[i] == query_pair(p.name, p.value));
                assert(all[i] =~= n + "="@ + v);
                if all[i].contains('&') {
                    let k = choose|k: int| 0 <= k < all[i].len() && all[i][k] == '&';
                    if k < n.len() {
                        assert(n[k] == '&');
                    } else if k == n.len() {
                        assert(all[i][k] == '=');
                    } else {
                        assert(v[k - n.len() - 1] == '&');
                    }
                }
            }
        }
    }
}

/// The parameters that go into the URL: the path and query parameters, in order.
pub open spec fn url_params(params: Seq<ParameterModel>) -> Seq<ParameterModel>
    decreases params.len(),
{
    if params.len() == 0 {
        Seq::empty()
    } else {
        let p = params.last();
        url_params(params.drop_last()) + if p.location == ParamLocation::Path || p.location
            == ParamLocation::Query {
            seq![p]
        } else {
            Seq::empty()
        }
    }
}

proof fn lemma_url_params_suffice(path: Seq<char>, params: Seq<ParameterModel>)
    ensures
        substituted_path(path, url_params(params)) == substituted_path(path, params),
        query_pairs(url_params(params)) == query_pairs(params),
    decreases params.len(),
{
    if params.len() > 0 {
        let prev = params.drop_last();
        let p = params.last();
        lemma_url_params_suffice(path, prev);
        if p.location == ParamLocation::Path || p.location == ParamLocation::Query {
            let u = url_params(params);
            assert(u.drop_last() =~= url_params(prev));
            assert(u.last() == p);
        } else {
            assert(url_params(params) =~= url_params(prev));
        }
    }
}

/// `n` slashes.
pub open spec fn slashes(n: nat) -> Seq<char> {
    Seq::new(n, |i: int| '/')
}

proof fn lemma_trim_slashes(base: Seq<char>, n: nat)
    ensures
        trim_end_char(base + slashes(n), '/') == trim_end_char(base, '/'),
    decreases n,
{
    if n > 0 {
        let m = (n - 1) as nat;
        lemma_trim_slashes(base, m);
        let longer = base + slashes(n);
        assert(longer.drop_last() =~= base + slashes(m));
        assert(longer.last() == '/');
    } else {
        assert(base + slashes(0) =~= base);
    }
}

/// The URL depends only on the base URL without its trailing slashes, the
/// path, and the path and query parameters in their order: the method,
/// the request body and the header and cookie parameters leave it as it
/// is, and so do slashes added to the end of the base URL.
pub proof fn lemma_url_depends_on(
    op: OperationModel,
    other: OperationModel,
    base: Seq<char>,
    extra_slashes: nat,
)
    requires
        other.path == op.path,
        url_params(other.parameters) == url_params(op.parameters),
    ensures
        url_text(other, base + slashes(extra_slashes)) == url_text(op, base),
{
    lemma_trim_slashes(base, extra_slashes);
    lemma_url_params_suffice(op.path, op.parameters);
    lemma_url_params_suffice(op.path, other.parameters);
}

/// The base URL with its trailing slashes removed is a prefix of the base
/// URL that does not end in a slash: a path joined to it (paths start
/// with `/`) never gives `//` at the seam.
pub proof fn lemma_trimmed_base_url(base: Seq<char>)
    ensures
        trim_end_char(base, '/').len() == 0 || trim_end_char(base, '/').last() != '/',
        trim_end_char(base, '/').len() <= base.len(),
        trim_end_char(base, '/') == base.take(trim_end_char(base, '/').len() as int),
    decreases base.len(),
{
    if base.len() > 0 && base.last() == '/' {
        lemma_trimmed_base_url(base.drop_last());
        let t = trim_end_char(base.drop_last(), '/');
        assert(base.drop_last().take(t.len() as int) =~= base.take(t.len() as int));
    } else {
        assert(base.take(base.len() as int) =~= base);
    }
}

} // verus!
