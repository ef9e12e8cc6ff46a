use crate::memory::Memory;
use crate::util::{hex_digit_value, hex_pair_value, is_hex_digit, is_whitespace, is_ws, strip_ws};
use vstd::prelude::*;
use vstd::string::StrSliceExecFns;
use vstd::string::StringExecFns;

verus! {

/// Why a pattern string could not be compiled.
#[derive(Debug, Clone, Copy, PartialEq, Eq, Structural)]
pub enum PatternError {
    /// After trimming and whitespace removal the pattern is empty, has an odd
    /// number of characters, or holds a character that is neither a hex digit
    /// nor `?` in a byte that is not a wildcard.
    InvalidPatternFormat,
}

/// `s` without its trailing run of `?` and whitespace characters.
pub open spec fn trim_pattern_end(s: Seq<char>) -> Seq<char>
    decreases s.len(),
{
    if s.len() > 0 && (s.last() == '?' || is_ws(s.last())) {
        trim_pattern_end(s.drop_last())
    } else {
        s
    }
}

/// The form of a pattern string that is compiled: trailing wildcards and
/// whitespace trimmed, then all whitespace removed.
pub open spec fn sanitize(s: Seq<char>) -> Seq<char> {
    strip_ws(trim_pattern_end(s))
}

proof fn lemma_trim_pattern_end_shape(s: Seq<char>)
    ensures
        trim_pattern_end(s).len() > 0 ==> trim_pattern_end(s).last() != '?' && !is_ws(
            trim_pattern_end(s).last(),
        ),
    decreases s.len(),
{
    if s.len() > 0 && (s.last() == '?' || is_ws(s.last())) {
        lemma_trim_pattern_end_shape(s.drop_last());
    }
}

proof fn lemma_strip_ws_shape(s: Seq<char>)
    ensures
        forall|i: int| 0 <= i < strip_ws(s).len() ==> !is_ws(#[trigger] strip_ws(s)[i]),
        s.len() > 0 && !is_ws(s.last()) ==> strip_ws(s).len() > 0 && strip_ws(s).last()
            == s.last(),
    decreases s.len(),
{
    if s.len() > 0 {
        lemma_strip_ws_shape(s.drop_last());
        let prev = strip_ws(s.drop_last());
        assert forall|i: int| 0 <= i < strip_ws(s).len() implies !is_ws(
            #[trigger] strip_ws(s)[i],
        ) by {
            if i < prev.len() {
                assert(strip_ws(s)[i] == prev[i]);
            }
        }
    }
}

/// The text that a pattern compiles from holds no whitespace and, unless
/// empty, ends in neither `?` nor whitespace.
pub proof fn lemma_sanitize_shape(s: Seq<char>)
    ensures
        forall|i: int| 0 <= i < sanitize(s).len() ==> !is_ws(#[trigger] sanitize(s)[i]),
        sanitize(s).len() > 0 ==> sanitize(s).last() != '?',
{
    lemma_trim_pattern_end_shape(s);
    lemma_strip_ws_shape(trim_pattern_end(s));
    let t = trim_pattern_end(s);
    if sanitize(s).len() > 0 {
        assert(t.len() > 0) by {
            if t.len() == 0 {
                assert(strip_ws(t).len() == 0);
            }
        }
    }
}

/// Whether byte `k` of the sanitized pattern `s` is a wildcard.
pub open spec fn pair_is_wildcard(s: Seq<char>, k: int) -> bool {
    s[2 * k] == '?' || s[2 * k + 1] == '?'
}

/// Whether the sanitized pattern `s` compiles: it is not empty, has an even
/// length, and each byte is a wildcard or two hex digits.
pub open spec fn pattern_compiles(s: Seq<char>) -> bool {
    &&& s.len() > 0
    &&& s.len() % 2 == 0
    &&& forall|k: int|
        0 <= k < s.len() / 2 ==> pair_is_wildcard(s, k) || (is_hex_digit(#[trigger] s[2 * k])
            && is_hex_digit(s[2 * k + 1]))
}

/// The expected value of byte `k` of the sanitized pattern `s` (zero for a
/// wildcard).
pub open spec fn pair_byte(s: Seq<char>, k: int) -> u8 {
    if pair_is_wildcard(s, k) {
        0
    } else {
        hex_pair_value(s[2 * k], s[2 * k + 1])
    }
}

/// Whether the window of `m` that starts at `pos` matches `bytes` at every
/// position whose `mask` entry is not 1.
pub open spec fn window_matches(m: Seq<u8>, pos: int, bytes: Seq<u8>, mask: Seq<u8>) -> bool {
    &&& 0 <= pos
    &&& pos + bytes.len() <= m.len()
    &&& forall|j: int| 0 <= j < bytes.len() ==> mask[j] == 1 || #[trigger] m[pos + j] == bytes[j]
}

/// The first start position in `from..=last` whose window matches.
pub open spec fn first_match(m: Seq<u8>, from: int, last: int, bytes: Seq<u8>, mask: Seq<u8>) -> Option<int>
    decreases last + 1 - from,
{
    if from > last {
        None
    } else if window_matches(m, from, bytes, mask) {
        Some(from)
    } else {
        first_match(m, from + 1, last, bytes, mask)
    }
}

/// What `first_match` returns: the least matching start position in
/// `from..=last`, or none when no position there matches.
pub proof fn lemma_first_match(m: Seq<u8>, from: int, last: int, bytes: Seq<u8>, mask: Seq<u8>)
    ensures
        match first_match(m, from, last, bytes, mask) {
            Some(q) => {
                &&& from <= q <= last
                &&& window_matches(m, q, bytes, mask)
                &&& forall|p: int| from <= p < q ==> !#[trigger] window_matches(m, p, bytes, mask)
            },
            None => forall|p: int|
                from <= p <= last ==> !#[trigger] window_matches(m, p, bytes, mask),
        },
    decreases last + 1 - from,
{
    if from <= last && !window_matches(m, from, bytes, mask) {
        lemma_first_match(m, from + 1, last, bytes, mask);
        assert forall|p: int| from <= p < from + 1 implies !#[trigger] window_matches(
            m,
            p,
            bytes,
            mask,
        ) by {
            assert(p == from);
        }
    }
}

/// A region in which exactly one window matches: the forward scan returns
/// that window's start; a region in which none matches: it returns none.
pub proof fn lemma_scan_finds_only_window(
    m: Seq<u8>,
    start: int,
    last: int,
    bytes: Seq<u8>,
    mask: Seq<u8>,
)
    ensures
        forall|q: int|
            start <= q <= last && window_matches(m, q, bytes, mask) && (forall|p: int|
                start <= p <= last && p != q ==> !#[trigger] window_matches(m, p, bytes, mask))
                ==> first_match(m, start, last, bytes, mask) == Some(q),
        (forall|p: int| start <= p <= last ==> !#[trigger] window_matches(m, p, bytes, mask))
            ==> first_match(m, start, last, bytes, mask) is None,
{
    lemma_first_match(m, start, last, bytes, mask);
}

/// Scanning on from one past a previous match `prev` finds the next matching
/// window strictly after it, or none when no window after it matches.
pub proof fn lemma_scan_resumes_after(
    m: Seq<u8>,
    prev: int,
    last: int,
    bytes: Seq<u8>,
    mask: Seq<u8>,
)
    ensures
        match first_match(m, prev + 1, last, bytes, mask) {
            Some(q) => {
                &&& prev < q <= last
                &&& window_matches(m, q, bytes, mask)
                &&& forall|p: int| prev < p < q ==> !#[trigger] window_matches(m, p, bytes, mask)
            },
            None => forall|p: int|
                prev < p <= last ==> !#[trigger] window_matches(m, p, bytes, mask),
        },
{
    lemma_first_match(m, prev + 1, last, bytes, mask);
}

/// Whether `c` belongs to the trailing run that compilation trims.
fn is_trimmed_char(c: char) -> (r: bool)
    ensures
        r == (c == '?' || is_ws(c)),
{
    c == '?' || is_whitespace(c)
}

/// A compiled wildcard byte pattern together with the region it scans and the
/// position of the last match.
///
/// A scan only tries start positions whose whole window lies inside the
/// region, so it never reads past the region's end. A scan that finds
/// nothing leaves the cursor where it was.
pub struct PatternMatch {
    pattern: String,
    pattern_size: usize,
    memory_start: usize,
    memory_size: usize,
    current_address: usize,
    byte_array: Vec<u8>,
    mask: Vec<u8>,
}

impl PatternMatch {
    /// The sanitized pattern text.
    pub closed spec fn spec_pattern(&self) -> Seq<char> {
        self.pattern@
    }

    /// Number of bytes in the pattern.
    pub closed spec fn spec_size(&self) -> nat {
        self.pattern_size as nat
    }

    /// Expected byte values, zero at wildcards.
    pub closed spec fn spec_bytes(&self) -> Seq<u8> {
        self.byte_array@
    }

    /// One entry per byte: 1 for a wildcard, 0 for a fixed byte.
    pub closed spec fn spec_mask(&self) -> Seq<u8> {
        self.mask@
    }

    /// First address of the scanned region.
    pub closed spec fn spec_start(&self) -> int {
        self.memory_start as int
    }

    /// Length of the scanned region.
    pub closed spec fn spec_region_size(&self) -> int {
        self.memory_size as int
    }

    /// Where the last match was found (the region start before any match).
    pub closed spec fn spec_cursor(&self) -> int {
        self.current_address as int
    }

    /// The compiled arrays agree with the pattern size, which is at least one.
    pub closed spec fn well_formed(&self) -> bool {
        &&& self.pattern_size >= 1
        &&& self.byte_array@.len() == self.pattern_size
        &&& self.mask@.len() == self.pattern_size
    }

    /// A well-formed pattern has one expected byte and one mask entry per
    /// pattern byte, and at least one byte.
    pub proof fn lemma_well_formed(&self)
        requires
            self.well_formed(),
        ensures
            self.spec_size() >= 1,
            self.spec_bytes().len() == self.spec_size(),
            self.spec_mask().len() == self.spec_size(),
    {
    }

    /// The region start, the region size and the cursor are machine
    /// integers.
    pub proof fn lemma_fields_range(&self)
        ensures
            0 <= self.spec_start() <= usize::MAX,
            0 <= self.spec_region_size() <= usize::MAX,
            0 <= self.spec_cursor() <= usize::MAX,
    {
    }

    /// The last start position whose window ends inside the region.
    pub open spec fn last_start(&self) -> int {
        self.spec_start() + self.spec_region_size() - self.spec_size()
    }

    /// The first match at or after `from` whose window lies in the region.
    pub open spec fn scan_from(&self, m: Seq<u8>, from: int) -> Option<int> {
        first_match(m, from, self.last_start(), self.spec_bytes(), self.spec_mask())
    }

    /// The region lies inside `m`.
    pub open spec fn region_in(&self, m: Seq<u8>) -> bool {
        self.spec_start() + self.spec_region_size() <= m.len()
    }

    /// `next` is `self` after a scan that returned `r`: only the cursor may
    /// move, and it moves to the match, if any.
    pub open spec fn scanned(&self, next: &PatternMatch, r: Option<usize>) -> bool {
        &&& next.spec_pattern() == self.spec_pattern()
        &&& next.spec_size() == self.spec_size()
        &&& next.spec_bytes() == self.spec_bytes()
        &&& next.spec_mask() == self.spec_mask()
        &&& next.spec_start() == self.spec_start()
        &&& next.spec_region_size() == self.spec_region_size()
        &&& next.well_formed() == self.well_formed()
        &&& next.spec_cursor() == match r {
            Some(p) => p as int,
            None => self.spec_cursor(),
        }
    }

    /// Compiles `pattern` for a scan of the `memory_size` bytes that start at
    /// `memory_start`. The scan cursor starts at `memory_start`.
    pub fn new(pattern: String, memory_start: usize, memory_size: usize) -> (r: Result<
        PatternMatch,
        PatternError,
    >)
        ensures
            r is Ok <==> pattern_compiles(sanitize(pattern@)),
            r matches Ok(p) ==> {
                let s = sanitize(pattern@);
                &&& p.well_formed()
                &&& p.spec_pattern() == s
                &&& p.spec_size() == s.len() / 2
                &&& p.spec_size() >= 1
                &&& p.spec_bytes().len() == p.spec_size()
                &&& p.spec_mask().len() == p.spec_size()
                &&& p.spec_start() == memory_start
                &&& p.spec_region_size() == memory_size
                &&& p.spec_cursor() == memory_start
                &&& forall|k: int|
                    0 <= k < p.spec_size() ==> #[trigger] p.spec_bytes()[k] == pair_byte(s, k)
                        && p.spec_mask()[k] == if pair_is_wildcard(s, k) {
                        1u8
                    } else {
                        0u8
                    }
            },
            r matches Err(e) ==> e == PatternError::InvalidPatternFormat,
    {
        let text = pattern.as_str();
        let n = text.unicode_len();
        let mut end: usize = n;
        assert(pattern@.subrange(0, n as int) =~= pattern@);
        while end > 0 && is_trimmed_char(text.get_char(end - 1))
            invariant
                end <= n,
                n == pattern@.len(),
                text@ == pattern@,
                trim_pattern_end(pattern@.subrange(0, end as int)) == trim_pattern_end(pattern@),
            decreases end,
        {
            assert(pattern@.subrange(0, end as int).drop_last() =~= pattern@.subrange(
                0,
                end - 1,
            ));
            end = end - 1;
        }
        assert(trim_pattern_end(pattern@.subrange(0, end as int)) == pattern@.subrange(0, end as int));
        let mut sanitized = String::new();
        let mut chars: Vec<char> = Vec::new();
        let mut i: usize = 0;
        while i < end
            invariant
                i <= end <= n,
                n == pattern@.len(),
                text@ == pattern@,
                sanitized@ == strip_ws(pattern@.subrange(0, i as int)),
                chars@ == sanitized@,
                trim_pattern_end(pattern@) == pattern@.subrange(0, end as int),
            decreases end - i,
        {
            let c = text.get_char(i);
            assert(pattern@.subrange(0, i + 1).drop_last() =~= pattern@.subrange(0, i as int));
            if !is_whitespace(c) {
                sanitized.append(text.substring_char(i, i + 1));
                chars.push(c);
                assert(sanitized@ =~= chars@);
            }
            i = i + 1;
        }
        let ghost s = sanitize(pattern@);
        assert(chars@ == s);
        let len = chars.len();
        if len == 0 || len % 2 == 1 {
            return Err(PatternError::InvalidPatternFormat);
        }
        let size = len / 2;
        let mut byte_array: Vec<u8> = Vec::new();
        let mut mask: Vec<u8> = Vec::new();
        let mut k: usize = 0;
        while k < size
            invariant
                k <= size,
                size * 2 == len,
                s == sanitize(pattern@),
                len == s.len(),
                chars@ == s,
                byte_array@.len() == k,
                mask@.len() == k,
                forall|q: int|
                    0 <= q < k ==> pair_is_wildcard(s, q) || (is_hex_digit(#[trigger] s[2 * q])
                        && is_hex_digit(s[2 * q + 1])),
                forall|q: int|
                    0 <= q < k ==> #[trigger] byte_array@[q] == pair_byte(s, q) && mask@[q]
                        == if pair_is_wildcard(s, q) {
                        1u8
                    } else {
                        0u8
                    },
            decreases size - k,
        {
            let hi = chars[2 * k];
            let lo = chars[2 * k + 1];
            if hi == '?' || lo == '?' {
                mask.push(1u8);
                byte_array.push(0u8);
            } else {
                match (hex_digit_value(hi), hex_digit_value(lo)) {
                    (Some(h), Some(l)) => {
                        mask.push(0u8);
                        byte_array.push(h * 16 + l);
                    },
                    _ => {
                        let ghost q = k as int;
                        assert(hi == s[2 * q] && lo == s[2 * q + 1]);
                        assert(!(pair_is_wildcard(s, q) || (is_hex_digit(s[2 * q])
                            && is_hex_digit(s[2 * q + 1]))));
                        assert(0 <= q < s.len() / 2);
                        assert(!pattern_compiles(s));
                        return Err(PatternError::InvalidPatternFormat);
                    },
                }
            }
            k = k + 1;
        }
        Ok(
            PatternMatch {
                pattern: sanitized,
                pattern_size: size,
                memory_start,
                memory_size,
                current_address: memory_start,
                byte_array,
                mask,
            },
        )
    }
    /// Whether the window of `mem` that starts at `pos` matches the pattern.
    fn try_match_at(&self, mem: &Memory, pos: usize) -> (r: bool)
        requires
            self.well_formed(),
            pos + self.spec_size() <= mem@.len(),
        ensures
            r == window_matches(mem@, pos as int, self.spec_bytes(), self.spec_mask()),
    {
        let total = mem.len();
        let mut j: usize = 0;
        while j < self.pattern_size && (self.mask[j] == 1u8 || mem.byte_at(pos + j)
            == self.byte_array[j])
            invariant
                self.well_formed(),
                j <= self.pattern_size,
                total == mem@.len(),
                pos + self.pattern_size <= mem@.len(),
                forall|i: int|
                    0 <= i < j ==> self.mask@[i] == 1 || #[trigger] mem@[pos + i]
                        == self.byte_array@[i],
            decreases self.pattern_size - j,
        {
            j = j + 1;
        }
        j == self.pattern_size
    }

    /// Scans forward from `from` for the first start position whose window
    /// lies in the region and matches; moves the cursor there.
    fn find_address_from(&mut self, mem: &Memory, from: usize) -> (r: Option<usize>)
        requires
            old(self).well_formed(),
            old(self).region_in(mem@),
        ensures
            old(self).scanned(final(self), r),
            match r {
                Some(p) => old(self).scan_from(mem@, from as int) == Some(p as int),
                None => old(self).scan_from(mem@, from as int) is None,
            },
    {
        let total = mem.len();
        let end = self.memory_start + self.memory_size;
        let mut p: usize = from;
        while p <= end && end - p >= self.pattern_size
            invariant
                self == old(self),
                self.well_formed(),
                end == self.memory_start + self.memory_size,
                total == mem@.len(),
                end <= total,
                from <= p,
                self.scan_from(mem@, from as int) == self.scan_from(mem@, p as int),
            decreases end - p,
        {
            if self.try_match_at(mem, p) {
                self.current_address = p;
                return Some(p);
            }
            p = p + 1;
        }
        None
    }

    /// The first match in the region, scanning from its start; moves the
    /// cursor to it.
    pub fn find_address(&mut self, mem: &Memory) -> (r: Option<usize>)
        requires
            old(self).well_formed(),
            old(self).region_in(mem@),
        ensures
            old(self).scanned(final(self), r),
            match r {
                Some(p) => old(self).scan_from(mem@, old(self).spec_start()) == Some(p as int),
                None => old(self).scan_from(mem@, old(self).spec_start()) is None,
            },
    {
        let start = self.memory_start;
        self.find_address_from(mem, start)
    }

    /// The next match in the region, scanning from one past the cursor; moves
    /// the cursor to it.
    pub fn find_next_address(&mut self, mem: &Memory) -> (r: Option<usize>)
        requires
            old(self).well_formed(),
            old(self).region_in(mem@),
        ensures
            old(self).scanned(final(self), r),
            match r {
                Some(p) => old(self).scan_from(mem@, old(self).spec_cursor() + 1) == Some(
                    p as int,
                ),
                None => old(self).scan_from(mem@, old(self).spec_cursor() + 1) is None,
            },
    {
        let total = mem.len();
        if self.current_address >= total {
            proof {
                assert(self.scan_from(mem@, self.spec_cursor() + 1) is None);
            }
            return None;
        }
        let from = self.current_address + 1;
        self.find_address_from(mem, from)
    }

    /// The sanitized pattern text.
    pub fn pattern(&self) -> (r: &String)
        ensures
            r@ == self.spec_pattern(),
    {
        &self.pattern
    }

    /// Number of bytes in the pattern.
    pub fn pattern_size(&self) -> (r: usize)
        ensures
            r == self.spec_size(),
    {
        self.pattern_size
    }

    /// Expected byte values, zero at wildcards.
    pub fn byte_array(&self) -> (r: &Vec<u8>)
        ensures
            r@ == self.spec_bytes(),
    {
        &self.byte_array
    }

    /// One entry per byte: 1 for a wildcard, 0 for a fixed byte.
    pub fn mask(&self) -> (r: &Vec<u8>)
        ensures
            r@ == self.spec_mask(),
    {
        &self.mask
    }

    /// Where the last match was found (the region start before any match).
    pub fn current_address(&self) -> (r: usize)
        ensures
            r == self.spec_cursor(),
    {
        self.current_address
    }
}

} // verus!
