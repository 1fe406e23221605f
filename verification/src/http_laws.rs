use crate::http_tools::{
    blank_line_at, find_header, first_at, framed, head_ends_at, header_of, header_text,
    headers_text, is_field_value, is_target, is_token, is_token_byte, lines_of, request_line_of,
    request_of, request_text, response_line_of, response_of, response_text, status_of, status_text,
    status_text_shape, version_of, Framed, HeaderView, HttpVersion, RequestView, ResponseView,
};
use crate::http_step::{asking_request, carrying_request, opening_request, token_headers};
use crate::session::{
    data_response, length_header, method_get, method_head, size_response, token_header,
};
use crate::text::{
    decimal_text, is_trimmed, lemma_decimal_round_trip, lemma_decimal_text,
    lemma_split_after_piece, lemma_split_after_separator, lemma_split_has_piece,
    lemma_split_joined, lemma_split_of_piece, lemma_three_digits, lemma_trimmed_is_trimmed,
    lemma_trimmed_stays, lower, split_on, trim_start, trimmed, unsigned_of,
};
use vstd::prelude::*;
use vstd::string::StringSliceAdditionalSpecFns;
use vstd::utf8::is_ascii_chars_encode_utf8;

verus! {

/// The bytes of the version that goes on every start line that is
/// written.
pub open spec fn version_text() -> Seq<u8> {
    "HTTP/1.1".spec_bytes()
}

/// The version text is `HTTP/1.1` byte for byte, and it names that
/// version.
pub proof fn lemma_version_text()
    ensures
        version_text() == seq![0x48u8, 0x54u8, 0x54u8, 0x50u8, 0x2Fu8, 0x31u8, 0x2Eu8, 0x31u8],
        version_of(version_text()) == Some(HttpVersion::Http11),
{
    reveal_strlit("HTTP/1.1");
    reveal_strlit("HTTP/0.9");
    reveal_strlit("HTTP/1.0");
    is_ascii_chars_encode_utf8("HTTP/1.1"@);
    is_ascii_chars_encode_utf8("HTTP/0.9"@);
    is_ascii_chars_encode_utf8("HTTP/1.0"@);
    let v = "HTTP/1.1".spec_bytes();
    assert(v =~= seq![0x48u8, 0x54u8, 0x54u8, 0x50u8, 0x2Fu8, 0x31u8, 0x2Eu8, 0x31u8]);
    assert("HTTP/0.9".spec_bytes()[5] == 0x30u8);
    assert("HTTP/1.0".spec_bytes()[7] == 0x30u8);
}

/// No byte of `text` is a carriage return or a line feed.
pub open spec fn clean(text: Seq<u8>) -> bool {
    forall|i: int| 0 <= i < text.len() ==> text[i] != 0x0Du8 && text[i] != 0x0Au8
}

/// A header field as one line, without the line end.
pub open spec fn header_line(h: HeaderView) -> Seq<u8> {
    h.name + seq![0x3Au8, 0x20u8] + h.value
}

/// The lines of a head: the start line, then one line for each header
/// field.
pub open spec fn head_lines(first: Seq<u8>, headers: Seq<HeaderView>) -> Seq<Seq<u8>> {
    Seq::new(
        headers.len() + 1,
        |i: int|
            if i == 0 {
                first
            } else {
                header_line(headers[i - 1])
            },
    )
}

/// A head as it goes on the wire: every line followed by CR LF.
pub open spec fn head_text(first: Seq<u8>, headers: Seq<HeaderView>) -> Seq<u8> {
    first + seq![0x0Du8, 0x0Au8] + headers_text(headers)
}

/// Every carriage return in `text` has a line feed after it, and no
/// carriage return two places on.
pub open spec fn line_ends_apart(text: Seq<u8>) -> bool {
    forall|p: int|
        0 <= p < text.len() && text[p] == 0x0Du8 ==> p + 1 < text.len() && #[trigger] text[p + 1]
            == 0x0Au8 && (p + 2 < text.len() ==> text[p + 2] != 0x0Du8)
}

/// The lines of a head, each with the carriage return that ends it.
pub open spec fn ended_lines(first: Seq<u8>, headers: Seq<HeaderView>) -> Seq<Seq<u8>> {
    Seq::new(headers.len() + 1, |i: int| head_lines(first, headers)[i].push(0x0Du8))
}

/// A head of clean lines splits at its line feeds into its lines, each
/// with its carriage return, and an empty rest; it ends in CR LF, and its
/// line ends stand apart.
pub proof fn lemma_head_splits(first: Seq<u8>, headers: Seq<HeaderView>)
    requires
        clean(first),
        first.len() > 0,
        forall|i: int| 0 <= i < headers.len() ==> clean(#[trigger] header_line(headers[i])),
    ensures
        split_on(head_text(first, headers), 0x0Au8) == ended_lines(first, headers).push(
            Seq::<u8>::empty(),
        ),
        line_ends_apart(head_text(first, headers)),
        head_text(first, headers).len() >= 3,
        head_text(first, headers)[head_text(first, headers).len() - 2] == 0x0Du8,
        head_text(first, headers)[head_text(first, headers).len() - 1] == 0x0Au8,
    decreases headers.len(),
{
    let none = Seq::<u8>::empty();
    if headers.len() == 0 {
        let ended = first.push(0x0Du8);
        let text = head_text(first, headers);
        assert(text =~= ended.push(0x0Au8));
        lemma_split_of_piece(ended, 0x0Au8);
        lemma_split_after_separator(ended, 0x0Au8);
        assert(ended_lines(first, headers) =~= seq![ended]);
        assert(seq![ended].push(none) =~= ended_lines(first, headers).push(none));
        assert(line_ends_apart(text)) by {
            assert forall|p: int| 0 <= p < text.len() && text[p] == 0x0Du8 implies p + 1
                < text.len() && #[trigger] text[p + 1] == 0x0Au8 && (p + 2 < text.len() ==> text[p
                + 2] != 0x0Du8) by {
                if p < first.len() {
                    assert(text[p] == first[p]);
                }
            }
        }
    } else {
        let before = headers.drop_last();
        let h = headers.last();
        assert forall|i: int| 0 <= i < before.len() implies clean(
            #[trigger] header_line(before[i]),
        ) by {
            assert(before[i] == headers[i]);
        }
        lemma_head_splits(first, before);
        let old_text = head_text(first, before);
        let line = header_line(h);
        assert(clean(line));
        assert(line.len() >= 2);
        let ended = line.push(0x0Du8);
        let text = head_text(first, headers);
        assert(header_text(h) =~= ended.push(0x0Au8));
        assert(text =~= (old_text + ended).push(0x0Au8));
        lemma_split_after_piece(old_text, ended, 0x0Au8);
        lemma_split_after_separator(old_text + ended, 0x0Au8);
        let old_parts = ended_lines(first, before).push(none);
        assert(old_parts.last() + ended =~= ended);
        assert(old_parts.update(old_parts.len() - 1, ended).push(none) =~= ended_lines(
            first,
            headers,
        ).push(none)) by {
            let a = old_parts.update(old_parts.len() - 1, ended).push(none);
            let b = ended_lines(first, headers).push(none);
            assert(a.len() == b.len());
            assert forall|i: int| 0 <= i < a.len() implies a[i] == b[i] by {
                if i < before.len() + 1 {
                    assert(ended_lines(first, before)[i] == head_lines(first, before)[i].push(
                        0x0Du8,
                    ));
                    if i > 0 {
                        assert(before[i - 1] == headers[i - 1]);
                    }
                }
            }
        }
        assert(line_ends_apart(text)) by {
            assert forall|p: int| 0 <= p < text.len() && text[p] == 0x0Du8 implies p + 1
                < text.len() && #[trigger] text[p + 1] == 0x0Au8 && (p + 2 < text.len() ==> text[p
                + 2] != 0x0Du8) by {
                if p < old_text.len() {
                    assert(text[p] == old_text[p]);
                    assert(old_text[p + 1] == 0x0Au8);
                    assert(text[p + 1] == old_text[p + 1]);
                    if p + 2 < old_text.len() {
                        assert(text[p + 2] == old_text[p + 2]);
                    } else {
                        assert(text[p + 2] == line[0]);
                    }
                } else if p < old_text.len() + line.len() {
                    assert(text[p] == line[p - old_text.len()]);
                }
            }
        }
    }
}

/// A head of clean lines, an empty line and a body are framed as those
/// lines and that body.
pub proof fn lemma_framed(first: Seq<u8>, headers: Seq<HeaderView>, body: Seq<u8>)
    requires
        clean(first),
        first.len() > 0,
        forall|i: int| 0 <= i < headers.len() ==> clean(#[trigger] header_line(headers[i])),
    ensures
        framed(head_text(first, headers) + seq![0x0Du8, 0x0Au8] + body) == Some(
            Framed { lines: head_lines(first, headers), body },
        ),
{
    lemma_head_splits(first, headers);
    let head = head_text(first, headers);
    let buf = head + seq![0x0Du8, 0x0Au8] + body;
    let end = head.len() - 2;
    assert(buf[end] == head[end] && buf[end + 1] == head[end + 1]);
    assert(blank_line_at(buf, end));
    assert forall|j: int| 0 <= j < end implies !blank_line_at(buf, j) by {
        if blank_line_at(buf, j) {
            assert(buf[j] == head[j]);
            assert(head[j + 1] == 0x0Au8);
            assert(buf[j + 2] == head[j + 2]);
        }
    }
    assert(head_ends_at(buf, end));
    assert forall|k: int| head_ends_at(buf, k) implies k == end by {}
    assert(buf.take(end + 2) =~= head);
    assert(buf.skip(end + 4) =~= body);
    let parts = split_on(head, 0x0Au8);
    let lines = head_lines(first, headers);
    assert forall|i: int| 0 <= i < parts.len() - 1 implies (#[trigger] parts[i]).len() > 0
        && parts[i].last() == 0x0Du8 by {
        assert(parts[i] == ended_lines(first, headers)[i]);
    }
    assert(Seq::new((parts.len() - 1) as nat, |i: int| parts[i].drop_last()) =~= lines) by {
        assert forall|i: int| 0 <= i < lines.len() implies parts[i].drop_last() == lines[i] by {
            assert(parts[i] == lines[i].push(0x0Du8));
            assert(lines[i].push(0x0Du8).drop_last() =~= lines[i]);
        }
    }
    assert(lines_of(head) == Some(lines));
}

/// The start line that is written for a method and a target.
pub open spec fn request_line(method: Seq<u8>, target: Seq<u8>) -> Seq<u8> {
    method + seq![0x20u8] + target + seq![0x20u8] + version_text()
}

/// The start line written for a well-formed method and target is clean
/// and is read back as that method, that target and `HTTP/1.1`.
pub proof fn lemma_request_line(method: Seq<u8>, target: Seq<u8>)
    requires
        is_token(method),
        is_target(target),
    ensures
        clean(request_line(method, target)),
        request_line(method, target).len() > 0,
        request_line_of(request_line(method, target)) == Some(
            (method, target, HttpVersion::Http11),
        ),
{
    lemma_version_text();
    let v = version_text();
    let none = Seq::<u8>::empty();
    let line = request_line(method, target);
    assert forall|i: int| 0 <= i < method.len() implies method[i] != 0x20u8 && method[i]
        != 0x0Du8 && method[i] != 0x0Au8 by {
        assert(is_token_byte(method[i]));
    }
    assert forall|i: int| 0 <= i < target.len() implies target[i] != 0x20u8 && target[i]
        != 0x0Du8 && target[i] != 0x0Au8 by {
        assert(0x21 <= target[i] <= 0x7E);
    }
    lemma_split_of_piece(method, 0x20u8);
    lemma_split_after_separator(method, 0x20u8);
    let a = method.push(0x20u8);
    lemma_split_after_piece(a, target, 0x20u8);
    let b = a + target;
    assert(split_on(b, 0x20u8) =~= seq![method, target]) by {
        assert(none + target =~= target);
    }
    lemma_split_after_separator(b, 0x20u8);
    let c = b.push(0x20u8);
    lemma_split_after_piece(c, v, 0x20u8);
    assert(c + v =~= line);
    assert(split_on(line, 0x20u8) =~= seq![method, target, v]) by {
        assert(none + v =~= v);
    }
    assert(clean(line)) by {
        assert forall|i: int| 0 <= i < line.len() implies line[i] != 0x0Du8 && line[i]
            != 0x0Au8 by {
            if i < method.len() {
                assert(line[i] == method[i]);
            } else if i == method.len() {
            } else if i < method.len() + 1 + target.len() {
                assert(line[i] == target[i - method.len() - 1]);
            } else if i == method.len() + 1 + target.len() {
            } else {
                assert(line[i] == v[i - method.len() - target.len() - 2]);
            }
        }
    }
}

/// A header field that is fit to be written: its name is a token, its
/// value holds only visible ASCII and blanks, and no blank stands at
/// either end of the value.
pub open spec fn fit_header(h: HeaderView) -> bool {
    &&& is_token(h.name)
    &&& is_field_value(h.value)
    &&& is_trimmed(h.value)
}

/// The line written for a fit header field is clean and is read back as
/// that field.
pub proof fn lemma_header_line(h: HeaderView)
    requires
        fit_header(h),
    ensures
        clean(header_line(h)),
        header_of(header_line(h)) == Some(h),
{
    let line = header_line(h);
    let k = h.name.len() as int;
    assert forall|i: int| 0 <= i < h.name.len() implies h.name[i] != 0x3Au8 && h.name[i]
        != 0x0Du8 && h.name[i] != 0x0Au8 by {
        assert(is_token_byte(h.name[i]));
    }
    assert(first_at(line, 0x3Au8, k)) by {
        assert forall|j: int| 0 <= j < k implies line[j] != 0x3Au8 by {
            assert(line[j] == h.name[j]);
        }
    }
    assert forall|j: int| first_at(line, 0x3Au8, j) implies j == k by {}
    assert(line.take(k) =~= h.name);
    let rest = line.skip(k + 1);
    assert(rest =~= seq![0x20u8] + h.value);
    assert(rest.skip(1) =~= h.value);
    assert(trim_start(rest) == trim_start(h.value));
    assert(trimmed(rest) == trimmed(h.value));
    lemma_trimmed_stays(h.value);
    assert(clean(line)) by {
        assert forall|i: int| 0 <= i < line.len() implies line[i] != 0x0Du8 && line[i]
            != 0x0Au8 by {
            if i < k {
                assert(line[i] == h.name[i]);
            } else if i >= k + 2 {
                assert(line[i] == h.value[i - k - 2]);
            }
        }
    }
}

/// A request that is fit to be written: method and target are
/// well-formed, the version is `HTTP/1.1`, and every header field is
/// fit.
pub open spec fn fit_request(r: RequestView) -> bool {
    &&& is_token(r.method)
    &&& is_target(r.target)
    &&& r.version == HttpVersion::Http11
    &&& forall|i: int|
        0 <= i < r.headers.len() ==> fit_header(#[trigger] r.headers[i])
}

/// What is written is read back: the bytes that carry a fit request hold
/// that request and no other.
pub proof fn lemma_request_round_trip(r: RequestView)
    requires
        fit_request(r),
    ensures
        request_of(request_text(r)) == Some(r),
{
    let first = request_line(r.method, r.target);
    lemma_request_line(r.method, r.target);
    lemma_framed(first, r.headers, r.body);
    let lines = head_lines(first, r.headers);
    assert forall|i: int| 1 <= i < lines.len() implies (#[trigger] header_of(lines[i])) == Some(
        r.headers[i - 1],
    ) by {
        lemma_header_line(r.headers[i - 1]);
    }
    assert(Seq::new((lines.len() - 1) as nat, |i: int| header_of(lines[i + 1]).unwrap())
        =~= r.headers);
}

/// The start line that is written for a status.
pub open spec fn response_line(status: u16) -> Seq<u8> {
    version_text() + seq![0x20u8] + status_text(status)
}

/// The start line written for a status whose text has the known shape is
/// clean and is read back as `HTTP/1.1` and that status.
pub proof fn lemma_response_line(status: u16)
    requires
        100 <= status <= 999,
        status_text_shape(status, status_text(status)),
    ensures
        clean(response_line(status)),
        response_line(status).len() > 0,
        response_line_of(response_line(status)) == Some((HttpVersion::Http11, status)),
{
    lemma_version_text();
    lemma_three_digits(status as nat);
    let v = version_text();
    let text = status_text(status);
    let digits = decimal_text(status as nat);
    let rest = text.skip(4);
    let line = response_line(status);
    assert(text =~= digits.push(0x20u8) + rest) by {
        assert(text.take(3) == digits);
        assert forall|i: int| 0 <= i < text.len() implies text[i] == (digits.push(0x20u8)
            + rest)[i] by {
            if i < 3 {
                assert(text.take(3)[i] == text[i]);
            }
        }
    }
    assert(line =~= v.push(0x20u8) + text);
    lemma_split_joined(v, text, 0x20u8);
    lemma_split_joined(digits, rest, 0x20u8);
    lemma_split_of_piece(v, 0x20u8);
    lemma_split_of_piece(digits, 0x20u8);
    lemma_split_has_piece(rest, 0x20u8);
    let parts = split_on(line, 0x20u8);
    assert(parts == seq![v] + (seq![digits] + split_on(rest, 0x20u8)));
    assert(parts[0] == v);
    assert(parts[1] == digits);
    let h = (status as nat) / 100;
    let t = ((status as nat) / 10) % 10;
    let o = (status as nat) % 10;
    assert(1 <= h <= 9 && h * 100 + t * 10 + o == status) by (nonlinear_arith)
        requires
            100 <= status <= 999,
            h == (status as nat) / 100,
            t == ((status as nat) / 10) % 10,
            o == (status as nat) % 10,
    ;
    assert(status_of(digits) == Some(status));
    assert(clean(line)) by {
        assert forall|i: int| 0 <= i < line.len() implies line[i] != 0x0Du8 && line[i]
            != 0x0Au8 by {
            if i < v.len() {
                assert(line[i] == v[i]);
            } else if i > v.len() {
                assert(line[i] == text[i - v.len() - 1]);
            }
        }
    }
}

/// A response that is fit to be written: the status has three digits and
/// a text of the known shape, the version is `HTTP/1.1`, and every header
/// field is fit.
pub open spec fn fit_response(r: ResponseView) -> bool {
    &&& 100 <= r.status <= 999
    &&& status_text_shape(r.status, status_text(r.status))
    &&& r.version == HttpVersion::Http11
    &&& forall|i: int|
        0 <= i < r.headers.len() ==> fit_header(#[trigger] r.headers[i])
}

/// What is written is read back: the bytes that carry a fit response hold
/// that response and no other.
pub proof fn lemma_response_round_trip(r: ResponseView)
    requires
        fit_response(r),
    ensures
        response_of(response_text(r)) == Some(r),
{
    let first = response_line(r.status);
    lemma_response_line(r.status);
    lemma_framed(first, r.headers, r.body);
    let lines = head_lines(first, r.headers);
    assert forall|i: int| 1 <= i < lines.len() implies (#[trigger] header_of(lines[i])) == Some(
        r.headers[i - 1],
    ) by {
        lemma_header_line(r.headers[i - 1]);
    }
    assert(Seq::new((lines.len() - 1) as nat, |i: int| header_of(lines[i + 1]).unwrap())
        =~= r.headers);
}

/// The name of the length header is a token of 14 bytes.
pub proof fn lemma_length_header()
    ensures
        is_token(length_header()),
        length_header().len() == 14,
{
    reveal_strlit("content-length");
    is_ascii_chars_encode_utf8("content-length"@);
}

/// The header field that tells a length is fit to be written.
pub proof fn lemma_length_field_fit(count: nat)
    ensures
        fit_header(HeaderView { name: length_header(), value: decimal_text(count) }),
{
    lemma_length_header();
    lemma_decimal_text(count);
}

/// What a session entry answers to a size request is read back from the
/// wire as that answer, and the size in it as that size.
pub proof fn lemma_size_response_round_trip(count: usize)
    requires
        status_text_shape(200, status_text(200)),
    ensures
        response_of(response_text(size_response(count))) == Some(size_response(count)),
        find_header(size_response(count).headers, length_header()) == Some(
            decimal_text(count as nat),
        ),
        unsigned_of(decimal_text(count as nat)) == Some(count),
{
    lemma_length_field_fit(count as nat);
    lemma_response_round_trip(size_response(count));
    lemma_decimal_round_trip(count);
}

/// What a session entry answers to a data request is read back from the
/// wire as that answer: the same status, length and body.
pub proof fn lemma_data_response_round_trip(data: Seq<u8>)
    requires
        status_text_shape(200, status_text(200)),
    ensures
        response_of(response_text(data_response(data))) == Some(data_response(data)),
{
    lemma_length_field_fit(data.len());
    lemma_response_round_trip(data_response(data));
}

/// What is read can be written: a header field that was read from a line
/// is fit.
pub proof fn lemma_read_header_is_fit(line: Seq<u8>)
    requires
        header_of(line) is Some,
    ensures
        fit_header(header_of(line).unwrap()),
{
    let k = choose|k: int| first_at(line, 0x3Au8, k);
    lemma_trimmed_is_trimmed(line.skip(k + 1));
}

/// The names of the two methods and of the token header are tokens, and
/// the header's name has 12 bytes.
pub proof fn lemma_method_and_token_names()
    ensures
        is_token(method_get()),
        is_token(method_head()),
        is_token(token_header()),
        token_header().len() == 12,
{
    reveal_strlit("GET");
    reveal_strlit("HEAD");
    reveal_strlit("client_token");
    is_ascii_chars_encode_utf8("GET"@);
    is_ascii_chars_encode_utf8("HEAD"@);
    is_ascii_chars_encode_utf8("client_token"@);
}

/// A token is fit to be carried: the token header can hold it.
pub open spec fn fit_token(token: Option<Seq<u8>>) -> bool {
    token matches Some(t) ==> is_field_value(t) && is_trimmed(t)
}

/// What a step asks, a session entry reads: the bytes of the opening
/// request, and of the data request and the size request of a step whose
/// token is fit, hold those requests, with the token under the token
/// header.
pub proof fn lemma_step_requests_round_trip(token: Option<Seq<u8>>, body: Seq<u8>)
    requires
        fit_token(token),
    ensures
        request_of(request_text(carrying_request(token, body))) == Some(
            carrying_request(token, body),
        ),
        request_of(request_text(asking_request(token))) == Some(asking_request(token)),
        request_of(request_text(opening_request())) == Some(opening_request()),
        find_header(carrying_request(token, body).headers, token_header()) == token,
        find_header(asking_request(token).headers, token_header()) == token,
        find_header(opening_request().headers, token_header()) == None::<Seq<u8>>,
{
    lemma_method_and_token_names();
    lemma_length_header();
    lemma_length_field_fit(body.len());
    let carrying = carrying_request(token, body);
    let asking = asking_request(token);
    reveal_strlit("content-length");
    reveal_strlit("client_token");
    is_ascii_chars_encode_utf8("content-length"@);
    is_ascii_chars_encode_utf8("client_token"@);
    assert(lower(length_header()).len() == 14 && lower(token_header()).len() == 12);
    assert(lower(carrying.headers[0].name) != lower(token_header()));
    assert(carrying.headers.skip(1) =~= token_headers(token));
    match token {
        Some(t) => {
            assert(token_headers(token)[0].name == token_header());
            assert(token_headers(token).skip(1) =~= Seq::<HeaderView>::empty());
        },
        None => {},
    }
    lemma_request_round_trip(carrying);
    lemma_request_round_trip(asking);
    lemma_request_round_trip(opening_request());
}

} // verus!
