//! Text primitives: characters, byte lengths, comparison and formatting.
use vstd::prelude::*;
use vstd::string::*;
use vstd::utf8::*;

verus! {

/// Number of bytes that the text takes in UTF-8.
pub open spec fn byte_len(text: Seq<char>) -> nat {
    encode_utf8(text).len()
}

/// True of the characters in Unicode's general category "Control".
pub open spec fn is_control_char(c: char) -> bool {
    c as u32 <= 0x1f || 0x7f <= c as u32 <= 0x9f
}

/// True when some character of the text is a control character.
pub open spec fn has_control(text: Seq<char>) -> bool {
    exists|i: int| 0 <= i < text.len() && is_control_char(#[trigger] text[i])
}

/// True of the characters with Unicode's White_Space property.
pub open spec fn is_space_char(c: char) -> bool {
    let code = c as u32;
    ||| 0x09 <= code <= 0x0d
    ||| code == 0x20
    ||| code == 0x85
    ||| code == 0xa0
    ||| code == 0x1680
    ||| 0x2000 <= code <= 0x200a
    ||| code == 0x2028
    ||| code == 0x2029
    ||| code == 0x202f
    ||| code == 0x205f
    ||| code == 0x3000
}

/// True when the text holds nothing but white space.
pub open spec fn is_blank(text: Seq<char>) -> bool {
    forall|i: int| 0 <= i < text.len() ==> is_space_char(#[trigger] text[i])
}

/// True when a list begins with another.
pub open spec fn begins_with<T>(list: Seq<T>, prefix: Seq<T>) -> bool {
    prefix.len() <= list.len() && list.take(prefix.len() as int) == prefix
}

/// True when `text` ends with `suffix`.
pub open spec fn finishes_with(text: Seq<char>, suffix: Seq<char>) -> bool {
    suffix.len() <= text.len() && text.skip(text.len() - suffix.len()) == suffix
}

/// The text with every trailing occurrence of `suffix` removed.
pub open spec fn without_endings(text: Seq<char>, suffix: Seq<char>) -> Seq<char>
    decreases text.len(),
{
    if suffix.len() > 0 && finishes_with(text, suffix) {
        without_endings(text.take(text.len() - suffix.len()), suffix)
    } else {
        text
    }
}

/// The lower-case form of an ASCII letter; any other character unchanged.
pub open spec fn ascii_lower(c: char) -> char {
    if 'A' <= c <= 'Z' {
        (c as u32 + 32) as char
    } else {
        c
    }
}

/// True when the texts agree up to the case of ASCII letters.
pub open spec fn same_ignoring_case(a: Seq<char>, b: Seq<char>) -> bool {
    &&& a.len() == b.len()
    &&& forall|i: int| 0 <= i < a.len() ==> #[trigger] ascii_lower(a[i]) == ascii_lower(b[i])
}

/// The text of one decimal digit.
pub open spec fn digit_text(digit: nat) -> Seq<char> {
    seq![(0x30 + digit) as char]
}

/// The shortest decimal text of a number.
pub open spec fn decimal_text(n: nat) -> Seq<char>
    decreases n,
{
    if n < 10 {
        digit_text(n)
    } else {
        decimal_text(n / 10) + digit_text(n % 10)
    }
}

/// The text behind an optional string.
pub open spec fn opt_text(value: Option<String>) -> Option<Seq<char>> {
    match value {
        Some(text) => Some(text@),
        None => None,
    }
}

/// The texts of a list of strings.
pub open spec fn texts(list: Seq<String>) -> Seq<Seq<char>> {
    list.map_values(|text: String| text@)
}

/// `a` and `b` agree below `k`, and at `k` the first of them ends or is smaller.
pub open spec fn splits_at(a: Seq<u8>, b: Seq<u8>, k: int) -> bool {
    &&& 0 <= k <= a.len()
    &&& k < b.len()
    &&& a.take(k) == b.take(k)
    &&& (k == a.len() || a[k] < b[k])
}

/// Strict lexicographic order of byte strings.
pub open spec fn bytes_before(a: Seq<u8>, b: Seq<u8>) -> bool {
    exists|k: int| #[trigger] splits_at(a, b, k)
}

/// Strict order of texts: that of their UTF-8 bytes.
pub open spec fn text_before(a: Seq<char>, b: Seq<char>) -> bool {
    bytes_before(encode_utf8(a), encode_utf8(b))
}

/// The characters of a text.
pub fn chars_of(text: &str) -> (chars: Vec<char>)
    ensures
        chars@ == text@,
{
    let mut chars: Vec<char> = Vec::new();
    for c in it: text.chars()
        invariant
            it.seq() == text@,
            chars@ == text@.take(it.index() as int),
    {
        chars.push(c);
        assert(text@.take(it.index() as int + 1) == text@.take(it.index() as int).push(c));
    }
    assert(text@.take(text@.len() as int) == text@);
    chars
}

/// Number of bytes of a text.
pub fn text_bytes(text: &str) -> (len: usize)
    ensures
        len == byte_len(text@),
{
    text.as_bytes().len()
}

pub fn is_control(c: char) -> (r: bool)
    ensures
        r == is_control_char(c),
{
    let code: u32 = c as u32;
    code <= 0x1f || (0x7f <= code && code <= 0x9f)
}

pub fn contains_control(text: &str) -> (r: bool)
    ensures
        r == has_control(text@),
{
    let chars = chars_of(text);
    for i in 0..chars.len()
        invariant
            chars@ == text@,
            forall|j: int| 0 <= j < i ==> !is_control_char(#[trigger] text@[j]),
    {
        if is_control(chars[i]) {
            assert(is_control_char(text@[i as int]));
            return true;
        }
    }
    false
}

pub fn is_space(c: char) -> (r: bool)
    ensures
        r == is_space_char(c),
{
    let code: u32 = c as u32;
    (0x09 <= code && code <= 0x0d) || code == 0x20 || code == 0x85 || code == 0xa0 || code == 0x1680
        || (0x2000 <= code && code <= 0x200a) || code == 0x2028 || code == 0x2029 || code == 0x202f
        || code == 0x205f || code == 0x3000
}

pub fn is_blank_text(text: &str) -> (r: bool)
    ensures
        r == is_blank(text@),
{
    let chars = chars_of(text);
    for i in 0..chars.len()
        invariant
            chars@ == text@,
            forall|j: int| 0 <= j < i ==> is_space_char(#[trigger] text@[j]),
    {
        if !is_space(chars[i]) {
            assert(!is_space_char(text@[i as int]));
            return false;
        }
    }
    true
}

/// Compares two byte strings for equality.
pub fn same_bytes(a: &[u8], b: &[u8]) -> (r: bool)
    ensures
        r == (a@ == b@),
{
    if a.len() != b.len() {
        return false;
    }
    for i in 0..a.len()
        invariant
            a@.len() == b@.len(),
            forall|j: int| 0 <= j < i ==> a@[j] == b@[j],
    {
        if a[i] != b[i] {
            return false;
        }
    }
    assert(a@ =~= b@);
    true
}

/// Two texts with the same UTF-8 bytes are the same text.
pub proof fn lemma_encoding_injective(a: Seq<char>, b: Seq<char>)
    requires
        encode_utf8(a) == encode_utf8(b),
    ensures
        a == b,
{
    encode_utf8_decode_utf8(a);
    encode_utf8_decode_utf8(b);
}

/// Compares two texts for equality.
pub fn same_text(a: &str, b: &str) -> (r: bool)
    ensures
        r == (a@ == b@),
{
    let r = same_bytes(a.as_bytes(), b.as_bytes());
    proof {
        if r {
            lemma_encoding_injective(a@, b@);
        }
    }
    r
}

/// Compares two byte strings lexicographically.
pub fn bytes_precede(a: &[u8], b: &[u8]) -> (r: bool)
    ensures
        r == bytes_before(a@, b@),
{
    let mut i: usize = 0;
    while i < a.len() && i < b.len()
        invariant
            i <= a@.len(),
            i <= b@.len(),
            a@.take(i as int) == b@.take(i as int),
        decreases a@.len() - i,
    {
        if a[i] < b[i] {
            assert(splits_at(a@, b@, i as int));
            return true;
        }
        if a[i] > b[i] {
            proof {
                assert forall|k: int| !splits_at(a@, b@, k) by {
                    if splits_at(a@, b@, k) {
                        if k < i {
                            assert(a@.take(i as int)[k] == b@.take(i as int)[k]);
                        } else if k > i {
                            assert(a@.take(k)[i as int] == b@.take(k)[i as int]);
                        }
                    }
                }
            }
            return false;
        }
        assert(a@.take(i + 1) =~= a@.take(i as int).push(a@[i as int]));
        assert(b@.take(i + 1) =~= b@.take(i as int).push(b@[i as int]));
        i += 1;
    }
    if i < b.len() {
        assert(splits_at(a@, b@, i as int));
        true
    } else {
        proof {
            assert forall|k: int| !splits_at(a@, b@, k) by {
                if splits_at(a@, b@, k) {
                    assert(a@.take(i as int)[k] == b@.take(i as int)[k]);
                }
            }
        }
        false
    }
}

/// Compares two texts by the order of their bytes.
pub fn text_precedes(a: &str, b: &str) -> (r: bool)
    ensures
        r == text_before(a@, b@),
{
    bytes_precede(a.as_bytes(), b.as_bytes())
}

/// No byte string precedes itself.
pub proof fn lemma_bytes_before_irreflexive(a: Seq<u8>)
    ensures
        !bytes_before(a, a),
{
}

/// The order of byte strings is transitive.
pub proof fn lemma_bytes_before_transitive(a: Seq<u8>, b: Seq<u8>, c: Seq<u8>)
    requires
        bytes_before(a, b),
        bytes_before(b, c),
    ensures
        bytes_before(a, c),
{
    let i = choose|k: int| splits_at(a, b, k);
    let j = choose|k: int| splits_at(b, c, k);
    let k = if i < j { i } else { j };
    assert(a.take(k) =~= c.take(k)) by {
        assert forall|m: int| 0 <= m < k implies a[m] == c[m] by {
            assert(a.take(i)[m] == b.take(i)[m]);
            assert(b.take(j)[m] == c.take(j)[m]);
        }
    }
    if i < j {
        assert(b.take(j)[i] == c.take(j)[i]);
    } else if j < i {
        assert(a.take(i)[j] == b.take(i)[j]);
    }
    assert(splits_at(a, c, k));
}

/// Of two different byte strings one precedes the other.
pub proof fn lemma_bytes_before_total(a: Seq<u8>, b: Seq<u8>)
    ensures
        a == b || bytes_before(a, b) || bytes_before(b, a),
    decreases a.len(),
{
    if a.len() == 0 {
        if b.len() == 0 {
            assert(a =~= b);
        } else {
            assert(a.take(0) =~= b.take(0));
            assert(splits_at(a, b, 0));
        }
    } else if b.len() == 0 {
        assert(a.take(0) =~= b.take(0));
        assert(splits_at(b, a, 0));
    } else if a[0] < b[0] {
        assert(a.take(0) =~= b.take(0));
        assert(splits_at(a, b, 0));
    } else if b[0] < a[0] {
        assert(a.take(0) =~= b.take(0));
        assert(splits_at(b, a, 0));
    } else {
        let x = a.drop_first();
        let y = b.drop_first();
        lemma_bytes_before_total(x, y);
        if x == y {
            assert(a =~= seq![a[0]] + x);
            assert(b =~= seq![b[0]] + y);
        } else if bytes_before(x, y) {
            lemma_split_shifts(a, b);
        } else {
            lemma_split_shifts(b, a);
        }
    }
}

proof fn lemma_split_shifts(a: Seq<u8>, b: Seq<u8>)
    requires
        a.len() > 0,
        b.len() > 0,
        a[0] == b[0],
        bytes_before(a.drop_first(), b.drop_first()),
    ensures
        bytes_before(a, b),
{
    let k = choose|k: int| splits_at(a.drop_first(), b.drop_first(), k);
    assert(a.take(k + 1) =~= b.take(k + 1)) by {
        assert forall|m: int| 0 <= m < k + 1 implies a[m] == b[m] by {
            if m > 0 {
                assert(a.drop_first().take(k)[m - 1] == b.drop_first().take(k)[m - 1]);
            }
        }
    }
    assert(splits_at(a, b, k + 1));
}

/// Whether `text` begins with `prefix`.
pub fn starts_with(text: &str, prefix: &str) -> (r: bool)
    ensures
        r == begins_with(text@, prefix@),
{
    let chars = chars_of(text);
    let head = chars_of(prefix);
    if head.len() > chars.len() {
        return false;
    }
    for i in 0..head.len()
        invariant
            chars@ == text@,
            head@ == prefix@,
            head@.len() <= chars@.len(),
            forall|j: int| 0 <= j < i ==> chars@[j] == head@[j],
    {
        if chars[i] != head[i] {
            assert(text@.take(prefix@.len() as int)[i as int] != prefix@[i as int]);
            return false;
        }
    }
    assert(text@.take(prefix@.len() as int) =~= prefix@);
    true
}

/// Whether `text` ends with `suffix`.
pub fn ends_with(text: &str, suffix: &str) -> (r: bool)
    ensures
        r == finishes_with(text@, suffix@),
{
    let chars = chars_of(text);
    let tail = chars_of(suffix);
    if tail.len() > chars.len() {
        return false;
    }
    let start: usize = chars.len() - tail.len();
    for i in 0..tail.len()
        invariant
            chars@ == text@,
            tail@ == suffix@,
            start + tail.len() == chars.len(),
            forall|j: int| 0 <= j < i ==> chars@[start + j] == tail@[j],
    {
        if chars[start + i] != tail[i] {
            assert(text@.skip(start as int)[i as int] != suffix@[i as int]);
            return false;
        }
    }
    assert(text@.skip(start as int) =~= suffix@);
    true
}

/// Removes every trailing occurrence of `suffix`.
pub fn strip_endings(text: &str, suffix: &str) -> (r: String)
    ensures
        r@ == without_endings(text@, suffix@),
{
    let width: usize = suffix.unicode_len();
    let mut rest: String = text.to_string();
    if width == 0 {
        return rest;
    }
    while ends_with(rest.as_str(), suffix)
        invariant
            width == suffix@.len(),
            width > 0,
            without_endings(rest@, suffix@) == without_endings(text@, suffix@),
        decreases rest@.len(),
    {
        let len: usize = rest.as_str().unicode_len();
        let shorter = rest.as_str().substring_char(0, len - width).to_string();
        assert(shorter@ =~= rest@.take(rest@.len() - suffix@.len()));
        rest = shorter;
    }
    rest
}

pub fn lower_ascii(c: char) -> (r: char)
    ensures
        r == ascii_lower(c),
{
    if 'A' <= c && c <= 'Z' {
        (c as u8 + 32) as char
    } else {
        c
    }
}

/// Compares two texts without regard to the case of ASCII letters.
pub fn equal_ignoring_case(a: &str, b: &str) -> (r: bool)
    ensures
        r == same_ignoring_case(a@, b@),
{
    let x = chars_of(a);
    let y = chars_of(b);
    if x.len() != y.len() {
        return false;
    }
    for i in 0..x.len()
        invariant
            x@ == a@,
            y@ == b@,
            x@.len() == y@.len(),
            forall|j: int| 0 <= j < i ==> #[trigger] ascii_lower(a@[j]) == ascii_lower(b@[j]),
    {
        if lower_ascii(x[i]) != lower_ascii(y[i]) {
            assert(ascii_lower(a@[i as int]) != ascii_lower(b@[i as int]));
            return false;
        }
    }
    true
}

fn digit(n: u64) -> (r: String)
    requires
        n < 10,
    ensures
        r@ == digit_text(n as nat),
{
    proof {
        reveal_strlit("0");
        reveal_strlit("1");
        reveal_strlit("2");
        reveal_strlit("3");
        reveal_strlit("4");
        reveal_strlit("5");
        reveal_strlit("6");
        reveal_strlit("7");
        reveal_strlit("8");
        reveal_strlit("9");
    }
    let text = match n {
        0 => "0",
        1 => "1",
        2 => "2",
        3 => "3",
        4 => "4",
        5 => "5",
        6 => "6",
        7 => "7",
        8 => "8",
        _ => "9",
    };
    assert(text@ =~= digit_text(n as nat));
    text.to_string()
}

/// Formats a number in decimal.
pub fn decimal(n: u64) -> (r: String)
    ensures
        r@ == decimal_text(n as nat),
    decreases n,
{
    if n < 10 {
        digit(n)
    } else {
        let head = decimal(n / 10);
        let last = digit(n % 10);
        head.concat(last.as_str())
    }
}

/// The concatenation of two texts.
pub fn join2(a: &str, b: &str) -> (r: String)
    ensures
        r@ == a@ + b@,
{
    a.to_string().concat(b)
}

/// The concatenation of three texts.
pub fn join3(a: &str, b: &str, c: &str) -> (r: String)
    ensures
        r@ == a@ + b@ + c@,
{
    a.to_string().concat(b).concat(c)
}

/// A copy of an optional string.
pub fn clone_opt(value: &Option<String>) -> (r: Option<String>)
    ensures
        r == *value,
{
    match value {
        Some(text) => Some(text.clone()),
        None => None,
    }
}

/// Whether a list of strings holds a text.
pub fn list_contains(list: &Vec<String>, text: &str) -> (r: bool)
    ensures
        r == texts(list@).contains(text@),
{
    for i in 0..list.len()
        invariant
            forall|j: int| 0 <= j < i ==> texts(list@)[j] != text@,
    {
        if same_text(list[i].as_str(), text) {
            assert(texts(list@)[i as int] == text@);
            return true;
        }
    }
    false
}

/// `String::from_utf8`, without the bytes that it hands back on failure. Claimed: it accepts the
/// valid UTF-8 encodings and nothing else, and gives the text that they encode.
#[verifier::external_body]
pub(crate) fn text_from_utf8(bytes: Vec<u8>) -> (text: Option<String>)
    ensures
        opt_text(text) == utf8_text(bytes@),
{
    String::from_utf8(bytes).ok()
}

/// The text that bytes encode in UTF-8, where they do.
pub open spec fn utf8_text(bytes: Seq<u8>) -> Option<Seq<char>> {
    if valid_utf8(bytes) {
        Some(decode_utf8(bytes))
    } else {
        None
    }
}

/// The text for bytes that are not UTF-8: what is invalid is replaced.
pub uninterp spec fn lossy_text(bytes: Seq<u8>) -> Seq<char>;

/// The text that bytes are shown as: what they encode in UTF-8, with replacements where they are
/// not UTF-8.
pub open spec fn shown_text(bytes: Seq<u8>) -> Seq<char> {
    if valid_utf8(bytes) {
        decode_utf8(bytes)
    } else {
        lossy_text(bytes)
    }
}

/// `String::from_utf8_lossy`. Claimed: valid UTF-8 gives the text that it encodes, and for other
/// bytes the text depends on the bytes alone. How invalid bytes are replaced is left unsaid.
#[verifier::external_body]
pub(crate) fn text_from_lossy(bytes: &[u8]) -> (text: String)
    ensures
        text@ == (if valid_utf8(bytes@) {
            decode_utf8(bytes@)
        } else {
            lossy_text(bytes@)
        }),
{
    String::from_utf8_lossy(bytes).into_owned()
}

/// The pieces between the places at which a list is cut.
pub open spec fn pieces<T>(list: Seq<T>, cut: spec_fn(T) -> bool) -> Seq<Seq<T>>
    decreases list.len(),
{
    if list.len() == 0 {
        seq![Seq::empty()]
    } else {
        let before = pieces(list.drop_last(), cut);
        if cut(list.last()) {
            before.push(Seq::empty())
        } else {
            before.drop_last().push(before.last().push(list.last()))
        }
    }
}

/// No piece holds a place at which the list was cut.
pub open spec fn is_uncut<T>(piece: Seq<T>, cut: spec_fn(T) -> bool) -> bool {
    forall|k: int| 0 <= k < piece.len() ==> !cut(#[trigger] piece[k])
}

/// There is a piece, and none of them holds a place at which the list was cut.
pub proof fn lemma_pieces<T>(list: Seq<T>, cut: spec_fn(T) -> bool)
    ensures
        pieces(list, cut).len() > 0,
        forall|i: int| 0 <= i < pieces(list, cut).len() ==> is_uncut(#[trigger] pieces(list, cut)[i], cut),
    decreases list.len(),
{
    if list.len() > 0 {
        lemma_pieces(list.drop_last(), cut);
        let before = pieces(list.drop_last(), cut);
        assert(is_uncut(before[before.len() - 1], cut));
        let all = pieces(list, cut);
        assert forall|i: int| 0 <= i < all.len() implies is_uncut(#[trigger] all[i], cut) by {
            if i < before.len() - 1 {
                assert(all[i] == before[i]);
            }
        }
    }
}

proof fn lemma_decimal_len(n: nat)
    ensures
        decimal_text(n).len() >= 1,
    decreases n,
{
    if n >= 10 {
        lemma_decimal_len(n / 10);
    }
}

/// Different numbers have different decimal texts.
pub proof fn lemma_decimal_injective(a: nat, b: nat)
    requires
        decimal_text(a) == decimal_text(b),
    ensures
        a == b,
    decreases a,
{
    let x = decimal_text(a);
    let y = decimal_text(b);
    assert(x.last() == (0x30 + a % 10) as char);
    assert(y.last() == (0x30 + b % 10) as char);
    assert(a % 10 == b % 10) by {
        assert((0x30 + a % 10) as char as int == 0x30 + a % 10);
        assert((0x30 + b % 10) as char as int == 0x30 + b % 10);
    }
    if a >= 10 {
        lemma_decimal_len(a / 10);
    }
    if b >= 10 {
        lemma_decimal_len(b / 10);
    }
    if a >= 10 && b >= 10 {
        assert(x.drop_last() =~= decimal_text(a / 10));
        assert(y.drop_last() =~= decimal_text(b / 10));
        lemma_decimal_injective(a / 10, b / 10);
    }
}

/// Cutting two lists that are put together around a cut gives the pieces of both.
pub proof fn lemma_pieces_joined<T>(left: Seq<T>, at: T, right: Seq<T>, cut: spec_fn(T) -> bool)
    requires
        cut(at),
    ensures
        pieces(left.push(at) + right, cut) == pieces(left, cut) + pieces(right, cut),
    decreases right.len(),
{
    let whole = left.push(at) + right;
    lemma_pieces(right, cut);
    if right.len() == 0 {
        assert(whole =~= left.push(at));
        assert(whole.drop_last() =~= left);
        assert(pieces(whole, cut) =~= pieces(left, cut) + pieces(right, cut));
    } else {
        lemma_pieces_joined(left, at, right.drop_last(), cut);
        lemma_pieces(right.drop_last(), cut);
        assert(whole.drop_last() =~= left.push(at) + right.drop_last());
        assert(whole.last() == right.last());
        assert(pieces(whole, cut) =~= pieces(left, cut) + pieces(right, cut));
    }
}

} // verus!
