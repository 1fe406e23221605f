use vstd::prelude::*;
use vstd::slice::slice_to_vec;
use vstd::utf8::{decode_utf8, valid_utf8};

verus! {

/// `String::from_utf8` of the standard library. Trusted: it succeeds
/// exactly on well-formed UTF-8, with the text those bytes encode.
#[verifier::external_body]
pub(crate) fn text_of(bytes: Vec<u8>) -> (r: Option<String>)
    ensures
        match r {
            Some(text) => valid_utf8(bytes@) && text@ == decode_utf8(bytes@),
            None => !valid_utf8(bytes@),
        },
{
    String::from_utf8(bytes).ok()
}

/// Whether two byte strings hold the same bytes.
pub fn bytes_equal(a: &[u8], b: &[u8]) -> (r: bool)
    ensures
        r == (a@ == b@),
{
    if a.len() != b.len() {
        return false;
    }
    let n = a.len();
    let mut i: usize = 0;
    while i < n
        invariant
            i <= n,
            n == a@.len(),
            n == b@.len(),
            forall|j: int| 0 <= j < i ==> a@[j] == b@[j],
        decreases n - i,
    {
        if a[i] != b[i] {
            return false;
        }
        i = i + 1;
    }
    assert(a@ =~= b@);
    true
}

/// An ASCII letter in lower case; any other byte as it is.
pub open spec fn lower_byte(b: u8) -> u8 {
    if 0x41 <= b <= 0x5A {
        (b + 0x20) as u8
    } else {
        b
    }
}

/// `text` with its ASCII letters in lower case.
pub open spec fn lower(text: Seq<u8>) -> Seq<u8> {
    Seq::new(text.len(), |i: int| lower_byte(text[i]))
}

/// Puts the ASCII letters of `text` in lower case.
pub fn to_lower(text: &[u8]) -> (r: Vec<u8>)
    ensures
        r@ == lower(text@),
{
    let n = text.len();
    let mut out: Vec<u8> = Vec::new();
    let mut i: usize = 0;
    while i < n
        invariant
            i <= n,
            n == text@.len(),
            out@.len() == i,
            forall|j: int| 0 <= j < i ==> out@[j] == lower_byte(text@[j]),
        decreases n - i,
    {
        let b = text[i];
        if 0x41u8 <= b && b <= 0x5Au8 {
            out.push(b + 0x20u8);
        } else {
            out.push(b);
        }
        i = i + 1;
    }
    out
}

/// The pieces of `text` between the occurrences of `sep`: one piece more
/// than there are separators, empty pieces included.
pub open spec fn split_on(text: Seq<u8>, sep: u8) -> Seq<Seq<u8>>
    decreases text.len(),
{
    if text.len() == 0 {
        seq![Seq::<u8>::empty()]
    } else {
        let before = split_on(text.drop_last(), sep);
        if text.last() == sep {
            before.push(Seq::<u8>::empty())
        } else {
            before.update(before.len() - 1, before.last().push(text.last()))
        }
    }
}

/// A split always has a piece.
pub proof fn lemma_split_has_piece(text: Seq<u8>, sep: u8)
    ensures
        split_on(text, sep).len() >= 1,
    decreases text.len(),
{
    if text.len() > 0 {
        lemma_split_has_piece(text.drop_last(), sep);
    }
}

/// A separator at the end opens a new, empty piece.
pub proof fn lemma_split_after_separator(text: Seq<u8>, sep: u8)
    ensures
        split_on(text.push(sep), sep) == split_on(text, sep).push(Seq::<u8>::empty()),
{
    assert(text.push(sep).drop_last() =~= text);
}

/// Bytes without a separator, put at the end, lengthen the last piece.
pub proof fn lemma_split_after_piece(text: Seq<u8>, more: Seq<u8>, sep: u8)
    requires
        forall|i: int| 0 <= i < more.len() ==> more[i] != sep,
    ensures
        split_on(text, sep).len() >= 1,
        split_on(text + more, sep) == split_on(text, sep).update(
            split_on(text, sep).len() - 1,
            split_on(text, sep).last() + more,
        ),
    decreases more.len(),
{
    lemma_split_has_piece(text, sep);
    let parts = split_on(text, sep);
    if more.len() == 0 {
        assert(text + more =~= text);
        assert(parts.last() + more =~= parts.last());
        assert(parts.update(parts.len() - 1, parts.last()) =~= parts);
    } else {
        let shorter = more.drop_last();
        lemma_split_after_piece(text, shorter, sep);
        assert((text + more).drop_last() =~= text + shorter);
        assert((text + more).last() == more.last());
        let before = split_on(text + shorter, sep);
        assert(before.last().push(more.last()) =~= parts.last() + more);
        assert(before.update(before.len() - 1, before.last().push(more.last())) =~= parts.update(
            parts.len() - 1,
            parts.last() + more,
        ));
    }
}

/// Bytes without a separator are one piece.
pub proof fn lemma_split_of_piece(text: Seq<u8>, sep: u8)
    requires
        forall|i: int| 0 <= i < text.len() ==> text[i] != sep,
    ensures
        split_on(text, sep) == seq![text],
{
    let none = Seq::<u8>::empty();
    lemma_split_after_piece(none, text, sep);
    assert(none + text =~= text);
    assert(split_on(none, sep) =~= seq![none]);
    assert(seq![none].update(0, none + text) =~= seq![text]);
}

/// Two texts joined by a separator split into the pieces of the first
/// followed by the pieces of the second.
pub proof fn lemma_split_joined(text: Seq<u8>, more: Seq<u8>, sep: u8)
    ensures
        split_on(text.push(sep) + more, sep) == split_on(text, sep) + split_on(more, sep),
    decreases more.len(),
{
    let none = Seq::<u8>::empty();
    lemma_split_has_piece(text, sep);
    lemma_split_has_piece(more, sep);
    if more.len() == 0 {
        assert(text.push(sep) + more =~= text.push(sep));
        lemma_split_after_separator(text, sep);
        assert(split_on(text, sep).push(none) =~= split_on(text, sep) + split_on(more, sep));
    } else {
        let shorter = more.drop_last();
        lemma_split_joined(text, shorter, sep);
        lemma_split_has_piece(shorter, sep);
        let whole = text.push(sep) + more;
        assert(whole.drop_last() =~= text.push(sep) + shorter);
        assert(whole.last() == more.last());
        let left = split_on(text, sep);
        let right = split_on(shorter, sep);
        if more.last() == sep {
            assert((left + right).push(none) =~= left + right.push(none));
        } else {
            let grown = right.last().push(more.last());
            assert((left + right).update((left + right).len() - 1, grown) =~= left + right.update(
                right.len() - 1,
                grown,
            ));
        }
    }
}

/// The views of the pieces in `parts`.
pub open spec fn parts_view(parts: Seq<Vec<u8>>) -> Seq<Seq<u8>> {
    Seq::new(parts.len(), |i: int| parts[i]@)
}

/// Splits `text` at every `sep`.
pub fn split(text: &[u8], sep: u8) -> (parts: Vec<Vec<u8>>)
    ensures
        parts_view(parts@) == split_on(text@, sep),
        parts@.len() >= 1,
{
    let n = text.len();
    let mut parts: Vec<Vec<u8>> = Vec::new();
    let mut piece: Vec<u8> = Vec::new();
    let mut i: usize = 0;
    while i < n
        invariant
            i <= n,
            n == text@.len(),
            parts_view(parts@).push(piece@) == split_on(text@.take(i as int), sep),
        decreases n - i,
    {
        assert(text@.take(i + 1).drop_last() =~= text@.take(i as int));
        let ghost shown = parts_view(parts@);
        let ghost held = piece@;
        let ghost before = split_on(text@.take(i as int), sep);
        if text[i] == sep {
            parts.push(piece);
            piece = Vec::new();
            assert(parts_view(parts@) =~= shown.push(held));
            assert(parts_view(parts@).push(piece@) =~= before.push(Seq::<u8>::empty()));
        } else {
            piece.push(text[i]);
            assert(parts_view(parts@).push(piece@) =~= before.update(
                before.len() - 1,
                held.push(text@[i as int]),
            ));
        }
        i = i + 1;
    }
    assert(text@.take(n as int) =~= text@);
    parts.push(piece);
    parts
}

/// A space or a horizontal tab.
pub open spec fn is_blank(b: u8) -> bool {
    b == 0x20 || b == 0x09
}

/// `text` without the blanks it starts with.
pub open spec fn trim_start(text: Seq<u8>) -> Seq<u8>
    decreases text.len(),
{
    if text.len() > 0 && is_blank(text[0]) {
        trim_start(text.skip(1))
    } else {
        text
    }
}

/// `text` without the blanks it ends with.
pub open spec fn trim_end(text: Seq<u8>) -> Seq<u8>
    decreases text.len(),
{
    if text.len() > 0 && is_blank(text.last()) {
        trim_end(text.drop_last())
    } else {
        text
    }
}

/// `text` without the blanks around it.
pub open spec fn trimmed(text: Seq<u8>) -> Seq<u8> {
    trim_end(trim_start(text))
}

/// Takes the blanks off both ends of `text`.
pub fn trim(text: &[u8]) -> (r: Vec<u8>)
    ensures
        r@ == trimmed(text@),
{
    let n = text.len();
    let mut from: usize = 0;
    assert(text@.skip(0) =~= text@);
    while from < n && (text[from] == 0x20u8 || text[from] == 0x09u8)
        invariant
            from <= n,
            n == text@.len(),
            trim_start(text@) == trim_start(text@.skip(from as int)),
        decreases n - from,
    {
        assert(text@.skip(from as int).skip(1) =~= text@.skip(from + 1));
        from = from + 1;
    }
    let ghost rest = text@.skip(from as int);
    let mut to: usize = n;
    while to > from && (text[to - 1] == 0x20u8 || text[to - 1] == 0x09u8)
        invariant
            from <= to <= n,
            n == text@.len(),
            trim_end(rest) == trim_end(text@.subrange(from as int, to as int)),
        decreases to,
    {
        assert(text@.subrange(from as int, to as int).drop_last() =~= text@.subrange(
            from as int,
            to - 1,
        ));
        to = to - 1;
    }
    slice_to_vec(&text[from..to])
}

/// `b` is an ASCII decimal digit.
pub open spec fn is_digit(b: u8) -> bool {
    0x30 <= b <= 0x39
}

/// Every byte of `text` is an ASCII decimal digit.
pub open spec fn all_digits(text: Seq<u8>) -> bool {
    forall|i: int| 0 <= i < text.len() ==> is_digit(#[trigger] text[i])
}

/// The number that the decimal digits `digits` write.
pub open spec fn decimal_value(digits: Seq<u8>) -> nat
    decreases digits.len(),
{
    if digits.len() == 0 {
        0
    } else {
        decimal_value(digits.drop_last()) * 10 + (digits.last() - 0x30) as nat
    }
}

/// The unsigned number that `text` writes: an optional `+`, then at least
/// one decimal digit, the value within `usize`. `None` for anything else.
pub open spec fn unsigned_of(text: Seq<u8>) -> Option<usize> {
    let digits = if text.len() > 0 && text[0] == 0x2Bu8 {
        text.skip(1)
    } else {
        text
    };
    if digits.len() > 0 && all_digits(digits) && decimal_value(digits) <= usize::MAX {
        Some(decimal_value(digits) as usize)
    } else {
        None
    }
}

/// Reading more digits never lowers the value.
proof fn lemma_decimal_prefix(digits: Seq<u8>, k: int)
    requires
        0 <= k <= digits.len(),
        all_digits(digits),
    ensures
        decimal_value(digits.take(k)) <= decimal_value(digits),
    decreases digits.len() - k,
{
    if k < digits.len() {
        let next = digits.take(k + 1);
        assert(next.drop_last() =~= digits.take(k));
        assert(is_digit(digits[k]));
        assert(next.last() == digits[k]);
        lemma_decimal_prefix(digits, k + 1);
    } else {
        assert(digits.take(k) =~= digits);
    }
}

/// Reads an unsigned decimal number.
pub fn parse_unsigned(text: &[u8]) -> (r: Option<usize>)
    ensures
        r == unsigned_of(text@),
{
    let n = text.len();
    let start: usize = if n > 0 && text[0] == 0x2Bu8 {
        1
    } else {
        0
    };
    let ghost digits = text@.skip(start as int);
    if start == n {
        return None;
    }
    let mut value: usize = 0;
    let mut i: usize = start;
    while i < n
        invariant
            start <= i <= n,
            start < n,
            n == text@.len(),
            text@.skip(0) == text@,
            start == (if n > 0 && text@[0] == 0x2Bu8 {
                1usize
            } else {
                0usize
            }),
            digits == text@.skip(start as int),
            all_digits(digits.take(i - start)),
            value == decimal_value(digits.take(i - start)),
        decreases n - i,
    {
        let b = text[i];
        assert(digits[i - start] == b);
        if b < 0x30u8 || b > 0x39u8 {
            return None;
        }
        let ghost next = digits.take(i - start + 1);
        assert(next.drop_last() =~= digits.take(i - start));
        let digit: usize = (b - 0x30u8) as usize;
        let grown = match value.checked_mul(10) {
            Some(tens) => tens.checked_add(digit),
            None => None,
        };
        match grown {
            Some(v) => {
                value = v;
            },
            None => {
                proof {
                    if all_digits(digits) {
                        lemma_decimal_prefix(digits, i - start + 1);
                    }
                }
                return None;
            },
        }
        i = i + 1;
    }
    assert(digits.take(n - start) =~= digits);
    Some(value)
}

/// The decimal digits of `n`, without leading zeros.
pub open spec fn decimal_text(n: nat) -> Seq<u8>
    decreases n,
{
    if n < 10 {
        seq![(0x30 + n) as u8]
    } else {
        decimal_text(n / 10).push((0x30 + n % 10) as u8)
    }
}

fn push_decimal(out: &mut Vec<u8>, n: usize)
    ensures
        final(out)@ == old(out)@ + decimal_text(n as nat),
    decreases n,
{
    if n < 10 {
        out.push(0x30u8 + (n as u8));
    } else {
        push_decimal(out, n / 10);
        out.push(0x30u8 + ((n % 10) as u8));
    }
}

/// Writes `n` in decimal digits.
pub fn format_unsigned(n: usize) -> (text: Vec<u8>)
    ensures
        text@ == decimal_text(n as nat),
{
    let mut out: Vec<u8> = Vec::new();
    push_decimal(&mut out, n);
    out
}

/// The digits of a number are digits, and they write that number.
pub proof fn lemma_decimal_text(n: nat)
    ensures
        decimal_text(n).len() > 0,
        all_digits(decimal_text(n)),
        decimal_value(decimal_text(n)) == n,
    decreases n,
{
    if n < 10 {
        let text = decimal_text(n);
        assert(text.drop_last() =~= Seq::<u8>::empty());
        reveal_with_fuel(decimal_value, 2);
    } else {
        lemma_decimal_text(n / 10);
        let head = decimal_text(n / 10);
        let text = decimal_text(n);
        assert(text.drop_last() =~= head);
        assert forall|i: int| 0 <= i < text.len() implies is_digit(#[trigger] text[i]) by {
            if i < head.len() {
                assert(text[i] == head[i]);
            }
        }
    }
}

/// A number that was written in decimal digits is read back as itself.
pub proof fn lemma_decimal_round_trip(n: usize)
    ensures
        unsigned_of(decimal_text(n as nat)) == Some(n),
{
    lemma_decimal_text(n as nat);
    assert(is_digit(decimal_text(n as nat)[0]));
}

/// A number of three digits is written as those three digits.
pub proof fn lemma_three_digits(n: nat)
    requires
        100 <= n <= 999,
    ensures
        decimal_text(n) == seq![
            (0x30 + n / 100) as u8,
            (0x30 + (n / 10) % 10) as u8,
            (0x30 + n % 10) as u8,
        ],
{
    reveal_with_fuel(decimal_text, 3);
    assert((n / 10) / 10 == n / 100) by (nonlinear_arith)
        requires
            100 <= n <= 999,
    ;
    assert(decimal_text(n) =~= seq![
        (0x30 + n / 100) as u8,
        (0x30 + (n / 10) % 10) as u8,
        (0x30 + n % 10) as u8,
    ]);
}

/// `text` has no blank at either end.
pub open spec fn is_trimmed(text: Seq<u8>) -> bool {
    text.len() > 0 ==> !is_blank(text[0]) && !is_blank(text.last())
}

/// A text without blanks at its ends is left as it is.
pub proof fn lemma_trimmed_stays(text: Seq<u8>)
    requires
        is_trimmed(text),
    ensures
        trimmed(text) == text,
{
}

/// What is left after the leading blanks are taken off is a tail of the
/// text that starts with no blank.
pub proof fn lemma_trim_start(text: Seq<u8>)
    ensures
        trim_start(text).len() <= text.len(),
        trim_start(text) == text.skip(text.len() - trim_start(text).len()),
        trim_start(text).len() > 0 ==> !is_blank(trim_start(text)[0]),
    decreases text.len(),
{
    if text.len() > 0 && is_blank(text[0]) {
        lemma_trim_start(text.skip(1));
        let rest = text.skip(1);
        assert(rest.skip(rest.len() - trim_start(rest).len()) =~= text.skip(
            text.len() - trim_start(rest).len(),
        ));
    } else {
        assert(text.skip(0) =~= text);
    }
}

/// What is left after the trailing blanks are taken off is a head of the
/// text that ends with no blank.
pub proof fn lemma_trim_end(text: Seq<u8>)
    ensures
        trim_end(text).len() <= text.len(),
        trim_end(text) == text.take(trim_end(text).len() as int),
        trim_end(text).len() > 0 ==> !is_blank(trim_end(text).last()),
    decreases text.len(),
{
    if text.len() > 0 && is_blank(text.last()) {
        lemma_trim_end(text.drop_last());
        let rest = text.drop_last();
        assert(rest.take(trim_end(rest).len() as int) =~= text.take(trim_end(rest).len() as int));
    } else {
        assert(text.take(text.len() as int) =~= text);
    }
}

/// What trimming leaves has no blank at either end.
pub proof fn lemma_trimmed_is_trimmed(text: Seq<u8>)
    ensures
        is_trimmed(trimmed(text)),
        trimmed(trimmed(text)) == trimmed(text),
{
    lemma_trim_start(text);
    let tail = trim_start(text);
    lemma_trim_end(tail);
    let left = trim_end(tail);
    if left.len() > 0 {
        assert(left[0] == tail[0]);
    }
    lemma_trimmed_stays(left);
}

/// Putting a text in lower case twice is putting it in lower case once.
pub proof fn lemma_lower_twice(text: Seq<u8>)
    ensures
        lower(lower(text)) == lower(text),
{
    assert(lower(lower(text)) =~= lower(text));
}

} // verus!
