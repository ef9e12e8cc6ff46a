use rand::Rng;
use vstd::prelude::*;
use vstd::string::StrSliceExecFns;
use vstd::string::StringExecFns;

verus! {

/// Whether `c` has the Unicode White_Space property.
pub open spec fn is_ws(c: char) -> bool {
    let u = c as u32;
    ||| 0x09 <= u <= 0x0D
    ||| u == 0x20
    ||| u == 0x85
    ||| u == 0xA0
    ||| u == 0x1680
    ||| 0x2000 <= u <= 0x200A
    ||| u == 0x2028
    ||| u == 0x2029
    ||| u == 0x202F
    ||| u == 0x205F
    ||| u == 0x3000
}

/// `s` with every whitespace character removed.
pub open spec fn strip_ws(s: Seq<char>) -> Seq<char>
    decreases s.len(),
{
    if s.len() == 0 {
        s
    } else if is_ws(s.last()) {
        strip_ws(s.drop_last())
    } else {
        strip_ws(s.drop_last()).push(s.last())
    }
}

/// Whether `c` is one of `0-9`, `a-f`, `A-F`.
pub open spec fn is_hex_digit(c: char) -> bool {
    ||| '0' <= c <= '9'
    ||| 'a' <= c <= 'f'
    ||| 'A' <= c <= 'F'
}

/// The value of the hex digit `c`.
pub open spec fn hex_value(c: char) -> nat {
    if '0' <= c <= '9' {
        (c as u32 - '0' as u32) as nat
    } else if 'a' <= c <= 'f' {
        (c as u32 - 'a' as u32 + 10) as nat
    } else {
        (c as u32 - 'A' as u32 + 10) as nat
    }
}

/// The byte written as the two hex digits `hi`, `lo`.
pub open spec fn hex_pair_value(hi: char, lo: char) -> u8 {
    (hex_value(hi) * 16 + hex_value(lo)) as u8
}

/// Whether `c` is whitespace.
pub fn is_whitespace(c: char) -> (r: bool)
    ensures
        r == is_ws(c),
{
    let u = c as u32;
    (0x09 <= u && u <= 0x0D) || u == 0x20 || u == 0x85 || u == 0xA0 || u == 0x1680 || (0x2000
        <= u && u <= 0x200A) || u == 0x2028 || u == 0x2029 || u == 0x202F || u == 0x205F || u
        == 0x3000
}

/// The value of `c` read as a hex digit, if it is one.
pub fn hex_digit_value(c: char) -> (r: Option<u8>)
    ensures
        r == if is_hex_digit(c) {
            Some(hex_value(c) as u8)
        } else {
            None::<u8>
        },
        r matches Some(v) ==> v < 16,
{
    if '0' <= c && c <= '9' {
        Some((c as u32 - '0' as u32) as u8)
    } else if 'a' <= c && c <= 'f' {
        Some((c as u32 - 'a' as u32 + 10) as u8)
    } else if 'A' <= c && c <= 'F' {
        Some((c as u32 - 'A' as u32 + 10) as u8)
    } else {
        None
    }
}

/// Letter case of the hex digits `a` to `f` in encoded text.
#[derive(Debug, Clone, Copy, PartialEq, Eq, Structural)]
pub enum Lettercase {
    Lowercase,
    Uppercase,
}

/// The hex digit for `n` (below 16) in the given case.
pub open spec fn hex_char(n: nat, upper: bool) -> char {
    if upper {
        seq!['0', '1', '2', '3', '4', '5', '6', '7', '8', '9', 'A', 'B', 'C', 'D', 'E', 'F'][n as int]
    } else {
        seq!['0', '1', '2', '3', '4', '5', '6', '7', '8', '9', 'a', 'b', 'c', 'd', 'e', 'f'][n as int]
    }
}

/// The two hex digits of `b`, high nibble first.
pub open spec fn byte_hex(b: u8, upper: bool) -> Seq<char> {
    seq![hex_char((b / 16) as nat, upper), hex_char((b % 16) as nat, upper)]
}

/// `bytes` as hex digit pairs with `sep` between consecutive pairs.
pub open spec fn encode_hex(bytes: Seq<u8>, upper: bool, sep: Seq<char>) -> Seq<char>
    decreases bytes.len(),
{
    if bytes.len() == 0 {
        Seq::empty()
    } else if bytes.len() == 1 {
        byte_hex(bytes[0], upper)
    } else {
        encode_hex(bytes.drop_last(), upper, sep) + sep + byte_hex(bytes.last(), upper)
    }
}

/// Appends the hex digit for `n` to `out`.
fn push_hex_digit(out: &mut String, n: u8, upper: bool)
    requires
        n < 16,
    ensures
        final(out)@ == old(out)@.push(hex_char(n as nat, upper)),
{
    let digits = if upper {
        "0123456789ABCDEF"
    } else {
        "0123456789abcdef"
    };
    proof {
        reveal_strlit("0123456789ABCDEF");
        reveal_strlit("0123456789abcdef");
    }
    let d = digits.substring_char(n as usize, n as usize + 1);
    out.append(d);
    assert(final(out)@ =~= old(out)@.push(hex_char(n as nat, upper)));
}

/// Encodes `bytes` as two hex digits each, in `letter_case`, with
/// `separator` between consecutive bytes.
pub fn bytes_to_string(bytes: &Vec<u8>, letter_case: Lettercase, separator: &str) -> (r: String)
    ensures
        r@ == encode_hex(bytes@, letter_case == Lettercase::Uppercase, separator@),
{
    let upper = match letter_case {
        Lettercase::Lowercase => false,
        Lettercase::Uppercase => true,
    };
    let mut result = String::new();
    let n = bytes.len();
    let mut i: usize = 0;
    while i < n
        invariant
            n == bytes@.len(),
            i <= n,
            upper == (letter_case == Lettercase::Uppercase),
            result@ == encode_hex(bytes@.subrange(0, i as int), upper, separator@),
        decreases n - i,
    {
        if i > 0 {
            result.append(separator);
        }
        let b = bytes[i];
        push_hex_digit(&mut result, b / 16, upper);
        push_hex_digit(&mut result, b % 16, upper);
        let ghost prefix = bytes@.subrange(0, i + 1);
        assert(prefix.drop_last() =~= bytes@.subrange(0, i as int));
        assert(prefix.last() == b);
        i = i + 1;
        assert(result@ =~= encode_hex(bytes@.subrange(0, i as int), upper, separator@));
    }
    assert(bytes@.subrange(0, n as int) =~= bytes@);
    result
}

/// Relies on rand::thread_rng and rand::Rng::gen_range: a value drawn from
/// `0..16`.
#[verifier::external_body]
fn random_nibble() -> (r: u8)
    ensures
        r < 16,
{
    rand::thread_rng().gen_range(0..16u8)
}

/// The value of `c` as a hex digit, or `fill` when `c` is not one.
pub fn nibble_or_fill(c: char, fill: u8) -> (r: u8)
    requires
        fill < 16,
    ensures
        r == if is_hex_digit(c) {
            hex_value(c) as u8
        } else {
            fill
        },
        r < 16,
{
    match hex_digit_value(c) {
        Some(v) => v,
        None => fill,
    }
}

/// The value of `c` as a hex digit; a random nibble, drawn only then, when
/// `c` is not one.
fn decode_nibble(c: char) -> (r: u8)
    ensures
        r < 16,
        is_hex_digit(c) ==> r == hex_value(c),
{
    let fill = match hex_digit_value(c) {
        Some(_) => 0u8,
        None => random_nibble(),
    };
    nibble_or_fill(c, fill)
}

/// What decoding `text` may give: with whitespace removed, no bytes when
/// the text is empty or odd in length, else one byte per two characters
/// whose high and low nibbles are the values of those characters wherever
/// they are hex digits.
pub open spec fn decodes_to(text: Seq<char>, r: Seq<u8>) -> bool {
    let s = strip_ws(text);
    &&& r.len() == if s.len() == 0 || s.len() % 2 == 1 {
        0
    } else {
        s.len() / 2
    }
    &&& forall|k: int|
        0 <= k < r.len() ==> {
            &&& (is_hex_digit(s[2 * k]) ==> #[trigger] r[k] / 16 == hex_value(s[2 * k]))
            &&& (is_hex_digit(s[2 * k + 1]) ==> r[k] % 16 == hex_value(s[2 * k + 1]))
        }
}

/// Decodes hex text into bytes, ignoring whitespace.
///
/// Text that is empty or has an odd number of characters once whitespace is
/// removed decodes to no bytes. A character that is not a hex digit is not
/// rejected: it stands for a randomly drawn nibble.
pub fn string_to_bytes(byte_string: &str) -> (r: Vec<u8>)
    ensures
        decodes_to(byte_string@, r@),
{
    let n = byte_string.unicode_len();
    let mut chars: Vec<char> = Vec::new();
    let mut i: usize = 0;
    while i < n
        invariant
            n == byte_string@.len(),
            i <= n,
            chars@ == strip_ws(byte_string@.subrange(0, i as int)),
        decreases n - i,
    {
        let c = byte_string.get_char(i);
        assert(byte_string@.subrange(0, i + 1).drop_last() =~= byte_string@.subrange(0, i as int));
        if !is_whitespace(c) {
            chars.push(c);
        }
        i = i + 1;
    }
    assert(byte_string@.subrange(0, n as int) =~= byte_string@);
    let ghost s = strip_ws(byte_string@);
    let mut bytes: Vec<u8> = Vec::new();
    let len = chars.len();
    if len == 0 || len % 2 == 1 {
        return bytes;
    }
    let size = len / 2;
    let mut k: usize = 0;
    while k < size
        invariant
            chars@ == s,
            s == strip_ws(byte_string@),
            len == s.len(),
            size * 2 == len,
            k <= size,
            bytes@.len() == k,
            forall|q: int|
                0 <= q < k ==> {
                    &&& (is_hex_digit(s[2 * q]) ==> #[trigger] bytes@[q] / 16 == hex_value(s[2 * q]))
                    &&& (is_hex_digit(s[2 * q + 1]) ==> bytes@[q] % 16 == hex_value(s[2 * q + 1]))
                },
        decreases size - k,
    {
        let hi = decode_nibble(chars[2 * k]);
        let lo = decode_nibble(chars[2 * k + 1]);
        let b = hi * 16 + lo;
        assert(b / 16 == hi && b % 16 == lo) by (nonlinear_arith)
            requires
                b == hi * 16 + lo,
                hi < 16,
                lo < 16,
        ;
        bytes.push(b);
        k = k + 1;
    }
    bytes
}

/// The hex digits of `bytes` with nothing between them.
pub open spec fn hex_digits(bytes: Seq<u8>, upper: bool) -> Seq<char>
    decreases bytes.len(),
{
    if bytes.len() == 0 {
        Seq::empty()
    } else {
        hex_digits(bytes.drop_last(), upper) + byte_hex(bytes.last(), upper)
    }
}

proof fn lemma_strip_ws_append(x: Seq<char>, y: Seq<char>)
    ensures
        strip_ws(x + y) == strip_ws(x) + strip_ws(y),
    decreases y.len(),
{
    if y.len() == 0 {
        assert(x + y =~= x);
        assert(strip_ws(x) + strip_ws(y) =~= strip_ws(x));
    } else {
        assert((x + y).drop_last() =~= x + y.drop_last());
        lemma_strip_ws_append(x, y.drop_last());
        if is_ws(y.last()) {
        } else {
            assert(strip_ws(x) + strip_ws(y.drop_last()).push(y.last()) =~= (strip_ws(x)
                + strip_ws(y.drop_last())).push(y.last()));
        }
    }
}

proof fn lemma_strip_ws_all_ws(s: Seq<char>)
    requires
        forall|i: int| 0 <= i < s.len() ==> is_ws(#[trigger] s[i]),
    ensures
        strip_ws(s) == Seq::<char>::empty(),
    decreases s.len(),
{
    if s.len() > 0 {
        lemma_strip_ws_all_ws(s.drop_last());
    }
}

proof fn lemma_hex_char(n: nat, upper: bool)
    requires
        n < 16,
    ensures
        !is_ws(hex_char(n, upper)),
        is_hex_digit(hex_char(n, upper)),
        hex_value(hex_char(n, upper)) == n,
{
    assert(n == 0 || n == 1 || n == 2 || n == 3 || n == 4 || n == 5 || n == 6 || n == 7 || n == 8
        || n == 9 || n == 10 || n == 11 || n == 12 || n == 13 || n == 14 || n == 15);
}

proof fn lemma_strip_byte_hex(b: u8, upper: bool)
    ensures
        strip_ws(byte_hex(b, upper)) == byte_hex(b, upper),
{
    let h = byte_hex(b, upper);
    lemma_hex_char((b / 16) as nat, upper);
    lemma_hex_char((b % 16) as nat, upper);
    assert(h.drop_last().drop_last() =~= Seq::<char>::empty());
    assert(strip_ws(h.drop_last().drop_last()) =~= Seq::<char>::empty());
    assert(h.drop_last().last() == h[0]);
    assert(strip_ws(h.drop_last()) =~= seq![h[0]]);
    assert(strip_ws(h) =~= h);
}

proof fn lemma_strip_encode_hex(bytes: Seq<u8>, upper: bool, sep: Seq<char>)
    requires
        forall|i: int| 0 <= i < sep.len() ==> is_ws(#[trigger] sep[i]),
    ensures
        strip_ws(encode_hex(bytes, upper, sep)) == hex_digits(bytes, upper),
    decreases bytes.len(),
{
    if bytes.len() == 0 {
    } else if bytes.len() == 1 {
        lemma_strip_byte_hex(bytes[0], upper);
        assert(bytes.drop_last().len() == 0);
        assert(hex_digits(bytes.drop_last(), upper) =~= Seq::<char>::empty());
        assert(hex_digits(bytes, upper) =~= byte_hex(bytes[0], upper));
    } else {
        let front = encode_hex(bytes.drop_last(), upper, sep);
        lemma_strip_encode_hex(bytes.drop_last(), upper, sep);
        lemma_strip_ws_append(front + sep, byte_hex(bytes.last(), upper));
        lemma_strip_ws_append(front, sep);
        lemma_strip_ws_all_ws(sep);
        lemma_strip_byte_hex(bytes.last(), upper);
        assert(strip_ws(front) + Seq::<char>::empty() =~= strip_ws(front));
    }
}

proof fn lemma_hex_digits_index(bytes: Seq<u8>, upper: bool)
    ensures
        hex_digits(bytes, upper).len() == 2 * bytes.len(),
        forall|k: int|
            0 <= k < bytes.len() ==> #[trigger] hex_digits(bytes, upper)[2 * k] == hex_char(
                (bytes[k] / 16) as nat,
                upper,
            ) && hex_digits(bytes, upper)[2 * k + 1] == hex_char((bytes[k] % 16) as nat, upper),
    decreases bytes.len(),
{
    if bytes.len() > 0 {
        lemma_hex_digits_index(bytes.drop_last(), upper);
        let d = hex_digits(bytes, upper);
        let front = hex_digits(bytes.drop_last(), upper);
        assert forall|k: int| 0 <= k < bytes.len() implies #[trigger] d[2 * k] == hex_char(
            (bytes[k] / 16) as nat,
            upper,
        ) && d[2 * k + 1] == hex_char((bytes[k] % 16) as nat, upper) by {
            if k < bytes.len() - 1 {
                assert(front[2 * k] == d[2 * k]);
                assert(bytes.drop_last()[k] == bytes[k]);
            }
        }
    }
}

/// Encoding bytes as hex, in either case and with a separator made only of
/// whitespace (or none), and decoding the text gives the bytes back.
pub proof fn lemma_hex_round_trip(bytes: Seq<u8>, upper: bool, sep: Seq<char>, r: Seq<u8>)
    requires
        forall|i: int| 0 <= i < sep.len() ==> is_ws(#[trigger] sep[i]),
        decodes_to(encode_hex(bytes, upper, sep), r),
    ensures
        r == bytes,
{
    lemma_strip_encode_hex(bytes, upper, sep);
    lemma_hex_digits_index(bytes, upper);
    let s = hex_digits(bytes, upper);
    assert forall|k: int| 0 <= k < bytes.len() implies r[k] == bytes[k] by {
        lemma_hex_char((bytes[k] / 16) as nat, upper);
        lemma_hex_char((bytes[k] % 16) as nat, upper);
        assert(s[2 * k] == hex_char((bytes[k] / 16) as nat, upper));
        assert(r[k] / 16 == bytes[k] / 16);
        assert(r[k] % 16 == bytes[k] % 16);
    }
    assert(r =~= bytes);
}

} // verus!
