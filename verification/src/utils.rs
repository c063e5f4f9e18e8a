use vstd::prelude::*;

verus! {

/// The parts of a locator (URI/IRI) that the engine reads, held as plain
/// text: the locator itself, its path component (query and fragment already
/// stripped), and its authority when one is present.
#[derive(Clone, Debug)]
pub struct Locator {
    pub text: String,
    pub path: String,
    pub authority: Option<String>,
}

/// The decimal digit character for a value in `0..=9`.
pub open spec fn spec_dec_digit(d: int) -> char {
    (('0' as int) + d) as char
}

/// The usual decimal rendering of a number: most significant digit first, no
/// leading zeros (a single `'0'` for zero).
pub open spec fn spec_u64_string(n: nat) -> Seq<char>
    decreases n,
{
    if n < 10 {
        seq![spec_dec_digit(n as int)]
    } else {
        spec_u64_string(n / 10) + seq![spec_dec_digit((n % 10) as int)]
    }
}

fn digit_str(d: u64) -> (s: &'static str)
    requires
        d < 10,
    ensures
        s@ =~= seq![spec_dec_digit(d as int)],
{
    let s = match d {
        0 => "0",
        1 => "1",
        2 => "2",
        3 => "3",
        4 => "4",
        5 => "5",
        6 => "6",
        7 => "7",
        8 => "8",
        _ => "9",
    };
    proof {
        reveal_strlit("0");
        reveal_strlit("1");
        reveal_strlit("2");
        reveal_strlit("3");
        reveal_strlit("4");
        reveal_strlit("5");
        reveal_strlit("6");
        reveal_strlit("7");
        reveal_strlit("8");
        reveal_strlit("9");
    }
    s
}

/// Renders a number in decimal.
pub fn u64_to_string(n: u64) -> (s: String)
    ensures
        s@ == spec_u64_string(n as nat),
    decreases n,
{
    if n < 10 {
        digit_str(n).to_owned()
    } else {
        let mut s = u64_to_string(n / 10);
        s.append(digit_str(n % 10));
        s
    }
}

/// Whether every character of the text is a decimal digit.
pub open spec fn spec_is_digits(s: Seq<char>) -> bool {
    forall|i: int| 0 <= i < s.len() ==> '0' <= #[trigger] s[i] <= '9'
}

/// The numeric value of a digit string, most significant digit first.
pub open spec fn spec_digits_value(s: Seq<char>) -> int
    decreases s.len(),
{
    if s.len() == 0 {
        0
    } else {
        spec_digits_value(s.drop_last()) * 10 + (s.last() as int - '0' as int)
    }
}

/// What parsing a decimal number returns: the value of the digits when the
/// text is nonempty, all digits, and the value fits; nothing otherwise.
pub open spec fn spec_parse_u64(s: Seq<char>) -> Option<u64> {
    if s.len() > 0 && spec_is_digits(s) && spec_digits_value(s) <= u64::MAX {
        Some(spec_digits_value(s) as u64)
    } else {
        None
    }
}

pub proof fn lemma_digits_value_nonneg(s: Seq<char>)
    requires
        spec_is_digits(s),
    ensures
        spec_digits_value(s) >= 0,
    decreases s.len(),
{
    if s.len() > 0 {
        assert(spec_is_digits(s.drop_last()));
        lemma_digits_value_nonneg(s.drop_last());
    }
}

/// The value of a proper prefix of a digit string never exceeds the value of
/// the whole string.
pub proof fn lemma_digits_prefix_le(s: Seq<char>, i: int)
    requires
        spec_is_digits(s),
        0 <= i <= s.len(),
    ensures
        spec_digits_value(s.subrange(0, i)) <= spec_digits_value(s),
    decreases s.len() - i,
{
    if i == s.len() {
        assert(s.subrange(0, i) =~= s);
    } else {
        let shorter = s.subrange(0, i);
        let longer = s.subrange(0, i + 1);
        assert(longer.drop_last() =~= shorter);
        assert(spec_is_digits(shorter));
        lemma_digits_value_nonneg(shorter);
        assert(spec_digits_value(longer) == spec_digits_value(shorter) * 10 + (s[i] as int
            - '0' as int));
        assert(spec_digits_value(shorter) * 10 >= spec_digits_value(shorter)) by (nonlinear_arith)
            requires
                spec_digits_value(shorter) >= 0,
        ;
        lemma_digits_prefix_le(s, i + 1);
    }
}

/// Parses a decimal number, rejecting empty input, any non-digit character,
/// and values that do not fit.
pub fn parse_u64(s: &str) -> (r: Option<u64>)
    ensures
        r == spec_parse_u64(s@),
{
    let n = s.unicode_len();
    if n == 0 {
        return None;
    }
    let mut value: u64 = 0;
    let mut i: usize = 0;
    while i < n
        invariant
            n == s@.len(),
            0 <= i <= n,
            spec_is_digits(s@.subrange(0, i as int)),
            value == spec_digits_value(s@.subrange(0, i as int)),
        decreases n - i,
    {
        let c = s.get_char(i);
        let code = c as u32;
        if code < 48 || code > 57 {
            proof {
                assert(!('0' <= s@[i as int] <= '9'));
            }
            return None;
        }
        let d: u64 = (code - 48) as u64;
        proof {
            assert(s@.subrange(0, i + 1).drop_last() =~= s@.subrange(0, i as int));
            assert(s@.subrange(0, i + 1).last() == s@[i as int]);
        }
        if value > (u64::MAX - d) / 10 {
            proof {
                let next = s@.subrange(0, i + 1);
                assert(spec_digits_value(next) == value * 10 + d);
                assert(value * 10 + d > u64::MAX) by (nonlinear_arith)
                    requires
                        value > (u64::MAX - d) / 10,
                        0 <= d <= 9,
                        value <= u64::MAX,
                ;
                assert(spec_is_digits(next));
                if spec_is_digits(s@) {
                    lemma_digits_prefix_le(s@, i + 1);
                }
            }
            return None;
        }
        proof {
            assert(value * 10 + d <= u64::MAX) by (nonlinear_arith)
                requires
                    value <= (u64::MAX - d) / 10,
                    0 <= d <= 9,
                    0 <= value,
            ;
        }
        value = value * 10 + d;
        i = i + 1;
    }
    proof {
        assert(s@.subrange(0, n as int) =~= s@);
    }
    Some(value)
}

/// The value of the first header pair carrying the given name. Header names
/// are held lowercase, as the transport layer normalizes them.
pub open spec fn spec_header_value(headers: Seq<(String, String)>, name: Seq<char>) -> Option<
    Seq<char>,
>
    decreases headers.len(),
{
    if headers.len() == 0 {
        None
    } else if headers[0].0@ == name {
        Some(headers[0].1@)
    } else {
        spec_header_value(headers.drop_first(), name)
    }
}

/// Looks up a header by name in a cached header snapshot.
pub fn header_value<'a>(headers: &'a Vec<(String, String)>, name: &String) -> (r: Option<
    &'a String,
>)
    ensures
        match r {
            Some(v) => spec_header_value(headers@, name@) == Some(v@),
            None => spec_header_value(headers@, name@) is None,
        },
{
    let mut i: usize = 0;
    proof {
        assert(headers@.skip(0) =~= headers@);
    }
    while i < headers.len()
        invariant
            0 <= i <= headers@.len(),
            spec_header_value(headers@.skip(i as int), name@) == spec_header_value(
                headers@,
                name@,
            ),
        decreases headers@.len() - i,
    {
        proof {
            assert(headers@.skip(i as int).drop_first() =~= headers@.skip(i + 1));
            assert(headers@.skip(i as int)[0] == headers@[i as int]);
        }
        if headers[i].0 == *name {
            return Some(&headers[i].1);
        }
        i = i + 1;
    }
    proof {
        assert(headers@.skip(headers@.len() as int) =~= Seq::<(String, String)>::empty());
    }
    None
}

/// The index of the first occurrence of `c`, or the length when `c` is
/// absent.
pub open spec fn spec_first_index(s: Seq<char>, c: char) -> int
    decreases s.len(),
{
    if s.len() == 0 {
        0
    } else if s[0] == c {
        0
    } else {
        1 + spec_first_index(s.drop_first(), c)
    }
}

pub proof fn lemma_first_index_bounds(s: Seq<char>, c: char)
    ensures
        0 <= spec_first_index(s, c) <= s.len(),
        spec_first_index(s, c) < s.len() ==> s[spec_first_index(s, c)] == c,
        forall|j: int| 0 <= j < spec_first_index(s, c) ==> s[j] != c,
    decreases s.len(),
{
    if s.len() > 0 && s[0] != c {
        lemma_first_index_bounds(s.drop_first(), c);
        assert forall|j: int| 0 <= j < spec_first_index(s, c) implies s[j] != c by {
            if j > 0 {
                assert(s.drop_first()[j - 1] == s[j]);
            }
        }
    }
}

proof fn lemma_first_index_of_scan(t: Seq<char>, c: char, m: int)
    requires
        0 <= m <= t.len(),
        forall|j: int| 0 <= j < m ==> t[j] != c,
        m < t.len() ==> t[m] == c,
    ensures
        spec_first_index(t, c) == m,
    decreases t.len(),
{
    if t.len() > 0 && t[0] != c {
        assert(forall|j: int| 0 <= j < m - 1 ==> t.drop_first()[j] != c);
        lemma_first_index_of_scan(t.drop_first(), c, m - 1);
    }
}

/// The pieces of the text between occurrences of the separator, in order; a
/// text without the separator is one piece, and each separator ends a piece.
pub open spec fn spec_split(s: Seq<char>, sep: char) -> Seq<Seq<char>>
    decreases s.len(),
    via spec_split_dec
{
    let k = spec_first_index(s, sep);
    if k == s.len() {
        seq![s]
    } else {
        seq![s.subrange(0, k)] + spec_split(s.subrange(k + 1, s.len() as int), sep)
    }
}

#[via_fn]
proof fn spec_split_dec(s: Seq<char>, sep: char) {
    lemma_first_index_bounds(s, sep);
}

/// Finds the first occurrence of `c` at or after `from`, or the text's
/// length when there is none.
pub fn find_char_from(s: &str, from: usize, c: char) -> (k: usize)
    requires
        from <= s@.len(),
    ensures
        from <= k <= s@.len(),
        forall|j: int| from <= j < k ==> s@[j] != c,
        k < s@.len() ==> s@[k as int] == c,
        spec_first_index(s@.subrange(from as int, s@.len() as int), c) == k - from,
{
    let n = s.unicode_len();
    let mut k = from;
    while k < n
        invariant
            n == s@.len(),
            from <= k <= n,
            forall|j: int| from <= j < k ==> s@[j] != c,
        decreases n - k,
    {
        if s.get_char(k) == c {
            proof {
                let t = s@.subrange(from as int, s@.len() as int);
                assert(forall|j: int| 0 <= j < k - from ==> t[j] != c);
                assert(t[k - from] == c);
                lemma_first_index_of_scan(t, c, k - from);
            }
            return k;
        }
        k = k + 1;
    }
    proof {
        let t = s@.subrange(from as int, s@.len() as int);
        assert(forall|j: int| 0 <= j < k - from ==> t[j] != c);
        lemma_first_index_of_scan(t, c, k - from);
    }
    k
}

/// The transport whitespace the header parser trims: space, tab, carriage
/// return, line feed.
pub open spec fn spec_is_space(c: char) -> bool {
    c == ' ' || c == '\t' || c == '\r' || c == '\n'
}

/// The text with leading whitespace removed.
pub open spec fn spec_trim_start(s: Seq<char>) -> Seq<char>
    decreases s.len(),
{
    if s.len() > 0 && spec_is_space(s[0]) {
        spec_trim_start(s.drop_first())
    } else {
        s
    }
}

/// The text with trailing whitespace removed.
pub open spec fn spec_trim_end(s: Seq<char>) -> Seq<char>
    decreases s.len(),
{
    if s.len() > 0 && spec_is_space(s.last()) {
        spec_trim_end(s.drop_last())
    } else {
        s
    }
}

/// The text with whitespace removed at both ends.
pub open spec fn spec_trim(s: Seq<char>) -> Seq<char> {
    spec_trim_end(spec_trim_start(s))
}

fn is_space_char(c: char) -> (b: bool)
    ensures
        b == spec_is_space(c),
{
    c == ' ' || c == '\t' || c == '\r' || c == '\n'
}

/// Trims whitespace from both ends of a piece of text, handed over as the
/// index range `[from, to)` of `s`; returns the trimmed range.
pub(crate) fn trim_range(s: &str, from: usize, to: usize) -> (r: (usize, usize))
    requires
        from <= to <= s@.len(),
    ensures
        from <= r.0 <= r.1 <= to,
        s@.subrange(r.0 as int, r.1 as int) == spec_trim(s@.subrange(from as int, to as int)),
{
    let ghost orig = s@.subrange(from as int, to as int);
    let mut lo = from;
    while lo < to && is_space_char(s.get_char(lo))
        invariant
            from <= lo <= to <= s@.len(),
            spec_trim_start(s@.subrange(lo as int, to as int)) == spec_trim_start(orig),
        decreases to - lo,
    {
        proof {
            assert(s@.subrange(lo as int, to as int).drop_first() =~= s@.subrange(
                lo + 1,
                to as int,
            ));
        }
        lo = lo + 1;
    }
    proof {
        assert(spec_trim_start(s@.subrange(lo as int, to as int)) == s@.subrange(
            lo as int,
            to as int,
        ));
    }
    let mut hi = to;
    while hi > lo && is_space_char(s.get_char(hi - 1))
        invariant
            from <= lo <= hi <= to <= s@.len(),
            spec_trim_end(s@.subrange(lo as int, hi as int)) == spec_trim_end(
                s@.subrange(lo as int, to as int),
            ),
        decreases hi - lo,
    {
        proof {
            assert(s@.subrange(lo as int, hi as int).drop_last() =~= s@.subrange(
                lo as int,
                hi - 1,
            ));
        }
        hi = hi - 1;
    }
    proof {
        assert(spec_trim_end(s@.subrange(lo as int, hi as int)) == s@.subrange(
            lo as int,
            hi as int,
        ));
    }
    (lo, hi)
}

/// The text with every leading and trailing double quote removed.
pub open spec fn spec_trim_quotes_start(s: Seq<char>) -> Seq<char>
    decreases s.len(),
{
    if s.len() > 0 && s[0] == '"' {
        spec_trim_quotes_start(s.drop_first())
    } else {
        s
    }
}

pub open spec fn spec_trim_quotes_end(s: Seq<char>) -> Seq<char>
    decreases s.len(),
{
    if s.len() > 0 && s.last() == '"' {
        spec_trim_quotes_end(s.drop_last())
    } else {
        s
    }
}

pub open spec fn spec_trim_quotes(s: Seq<char>) -> Seq<char> {
    spec_trim_quotes_end(spec_trim_quotes_start(s))
}

/// Trims double quotes from both ends of the index range `[from, to)` of
/// `s`; returns the trimmed range.
fn trim_quote_range(s: &str, from: usize, to: usize) -> (r: (usize, usize))
    requires
        from <= to <= s@.len(),
    ensures
        from <= r.0 <= r.1 <= to,
        s@.subrange(r.0 as int, r.1 as int) == spec_trim_quotes(
            s@.subrange(from as int, to as int),
        ),
{
    let ghost orig = s@.subrange(from as int, to as int);
    let mut lo = from;
    while lo < to && s.get_char(lo) == '"'
        invariant
            from <= lo <= to <= s@.len(),
            spec_trim_quotes_start(s@.subrange(lo as int, to as int)) == spec_trim_quotes_start(
                orig,
            ),
        decreases to - lo,
    {
        proof {
            assert(s@.subrange(lo as int, to as int).drop_first() =~= s@.subrange(
                lo + 1,
                to as int,
            ));
        }
        lo = lo + 1;
    }
    proof {
        assert(spec_trim_quotes_start(s@.subrange(lo as int, to as int)) == s@.subrange(
            lo as int,
            to as int,
        ));
    }
    let mut hi = to;
    while hi > lo && s.get_char(hi - 1) == '"'
        invariant
            from <= lo <= hi <= to <= s@.len(),
            spec_trim_quotes_end(s@.subrange(lo as int, hi as int)) == spec_trim_quotes_end(
                s@.subrange(lo as int, to as int),
            ),
        decreases hi - lo,
    {
        proof {
            assert(s@.subrange(lo as int, hi as int).drop_last() =~= s@.subrange(
                lo as int,
                hi - 1,
            ));
        }
        hi = hi - 1;
    }
    proof {
        assert(spec_trim_quotes_end(s@.subrange(lo as int, hi as int)) == s@.subrange(
            lo as int,
            hi as int,
        ));
    }
    (lo, hi)
}

/// The deterministic cache-artifact name for one chunk of a download: the
/// destination name with `.part-<index>.tmp` appended.
pub open spec fn spec_chunk_file_name(filename: Seq<char>, part: nat) -> Seq<char> {
    filename + ".part-"@ + spec_u64_string(part) + ".tmp"@
}

/// Builds the cache-artifact name for chunk number `part` of a download.
pub fn chunk_file_name(filename: &str, part: usize) -> (r: String)
    ensures
        r@ == spec_chunk_file_name(filename@, part as nat),
{
    let mut s = filename.to_owned();
    s.append(".part-");
    let digits = u64_to_string(part as u64);
    s.append(digits.as_str());
    s.append(".tmp");
    s
}

/// Whether the text holds the character anywhere.
pub open spec fn spec_contains_char(s: Seq<char>, c: char) -> bool {
    exists|i: int| 0 <= i < s.len() && s[i] == c
}

fn contains_char(s: &str, c: char) -> (b: bool)
    ensures
        b == spec_contains_char(s@, c),
{
    let n = s.unicode_len();
    let mut i: usize = 0;
    while i < n
        invariant
            n == s@.len(),
            0 <= i <= n,
            forall|j: int| 0 <= j < i ==> s@[j] != c,
        decreases n - i,
    {
        if s.get_char(i) == c {
            return true;
        }
        i = i + 1;
    }
    false
}

/// The text with every trailing slash removed.
pub open spec fn spec_strip_trailing_slashes(s: Seq<char>) -> Seq<char>
    decreases s.len(),
{
    if s.len() > 0 && s.last() == '/' {
        spec_strip_trailing_slashes(s.drop_last())
    } else {
        s
    }
}

/// The index right after the last slash, or 0 when there is none.
pub open spec fn spec_last_slash_end(s: Seq<char>) -> int
    decreases s.len(),
{
    if s.len() == 0 {
        0
    } else if s.last() == '/' {
        s.len() as int
    } else {
        spec_last_slash_end(s.drop_last())
    }
}

proof fn lemma_last_slash_end_props(s: Seq<char>)
    ensures
        0 <= spec_last_slash_end(s) <= s.len(),
        forall|j: int| spec_last_slash_end(s) <= j < s.len() ==> s[j] != '/',
    decreases s.len(),
{
    if s.len() > 0 && s.last() != '/' {
        lemma_last_slash_end_props(s.drop_last());
        assert(forall|j: int| 0 <= j < s.len() - 1 ==> s.drop_last()[j] == s[j]);
    }
}

/// The destination filename derived from the locator: the last segment of
/// the path (trailing slashes ignored), or the authority with `.html`
/// appended when the path is just `/` or holds no dot.
pub open spec fn spec_filename_from_url(path: Seq<char>, authority: Seq<char>) -> Seq<char> {
    if path == "/"@ || !spec_contains_char(path, '.') {
        authority + ".html"@
    } else {
        let t = spec_strip_trailing_slashes(path);
        t.subrange(spec_last_slash_end(t), t.len() as int)
    }
}

impl Locator {
    /// What the transport's locator parser guarantees of the parts it hands
    /// over: an authority never holds a slash.
    pub open spec fn wf(self) -> bool {
        match self.authority {
            Some(a) => !spec_contains_char(a@, '/'),
            None => true,
        }
    }
}

/// Derives the destination filename from the locator, falling back to a name
/// synthesized from the host when the path has no usable segment. The result
/// is always a relative name.
pub fn extract_filename_from_url(iri: &Locator) -> (r: String)
    requires
        iri.wf(),
        (iri.path@ == "/"@ || !spec_contains_char(iri.path@, '.')) ==> iri.authority is Some,
    ensures
        r@ == spec_filename_from_url(
            iri.path@,
            match iri.authority {
                Some(a) => a@,
                None => Seq::empty(),
            },
        ),
        r@.len() == 0 || r@[0] != '/',
{
    let path = iri.path.as_str();
    let n = path.unicode_len();
    proof {
        reveal_strlit("/");
        reveal_strlit(".html");
    }
    let path_is_root = n == 1 && path.get_char(0) == '/';
    proof {
        if path_is_root {
            assert(path@ =~= "/"@);
        } else if path@ == "/"@ {
            assert(path@.len() == 1 && path@[0] == '/');
        }
    }
    if path_is_root || !contains_char(path, '.') {
        let authority = match &iri.authority {
            Some(a) => a,
            None => {
                proof {
                    assert(false);
                }
                path
            },
        };
        let mut name = authority.to_owned();
        name.append(".html");
        proof {
            if name@.len() > 0 && name@[0] == '/' {
                if authority@.len() > 0 {
                    assert(authority@[0] == '/');
                    assert(spec_contains_char(authority@, '/'));
                } else {
                    assert(name@[0] == '.');
                }
            }
        }
        return name;
    }
    // strip trailing slashes
    let mut end = n;
    proof {
        assert(path@.subrange(0, n as int) =~= path@);
    }
    while end > 0 && path.get_char(end - 1) == '/'
        invariant
            0 <= end <= n == path@.len(),
            spec_strip_trailing_slashes(path@.subrange(0, end as int))
                == spec_strip_trailing_slashes(path@),
        decreases end,
    {
        proof {
            assert(path@.subrange(0, end as int).drop_last() =~= path@.subrange(0, end - 1));
        }
        end = end - 1;
    }
    let ghost t = spec_strip_trailing_slashes(path@);
    proof {
        assert(t == path@.subrange(0, end as int));
    }
    // find the end of the last slash within [0, end)
    let mut seg_start: usize = 0;
    let mut i: usize = 0;
    proof {
        assert(path@.subrange(0, 0) =~= Seq::<char>::empty());
    }
    while i < end
        invariant
            0 <= seg_start <= i <= end <= path@.len(),
            seg_start == spec_last_slash_end(path@.subrange(0, i as int)),
        decreases end - i,
    {
        proof {
            assert(path@.subrange(0, i + 1).drop_last() =~= path@.subrange(0, i as int));
            assert(path@.subrange(0, i + 1).last() == path@[i as int]);
        }
        if path.get_char(i) == '/' {
            seg_start = i + 1;
        }
        i = i + 1;
    }
    let segment = path.substring_char(seg_start, end);
    proof {
        assert(segment@ =~= t.subrange(spec_last_slash_end(t), t.len() as int));
        lemma_last_slash_end_props(t);
        if segment@.len() > 0 {
            assert(t[spec_last_slash_end(t)] != '/');
        }
    }
    segment.to_owned()
}

/// The filename found in the parts of a `Content-Disposition` value: from
/// the first part whose trimmed text starts with `filename=`, the rest with
/// surrounding double quotes removed.
pub open spec fn spec_parts_filename(parts: Seq<Seq<char>>) -> Option<Seq<char>>
    decreases parts.len(),
{
    if parts.len() == 0 {
        None
    } else {
        let t = spec_trim(parts[0]);
        if t.len() >= 9 && t.subrange(0, 9) == "filename="@ {
            Some(spec_trim_quotes(t.subrange(9, t.len() as int)))
        } else {
            spec_parts_filename(parts.drop_first())
        }
    }
}

/// The filename a cached header snapshot's `Content-Disposition` carries, if
/// any; a name that would be an absolute path is refused, so the caller
/// falls back to the locator-derived name.
pub open spec fn spec_filename_from_header(headers: Seq<(String, String)>) -> Option<Seq<char>> {
    match spec_header_value(headers, "content-disposition"@) {
        Some(v) => match spec_parts_filename(spec_split(v, ';')) {
            Some(name) => if name.len() > 0 && name[0] == '/' {
                None
            } else {
                Some(name)
            },
            None => None,
        },
        None => None,
    }
}

fn has_filename_prefix(s: &str, lo: usize, hi: usize) -> (b: bool)
    requires
        lo <= hi <= s@.len(),
    ensures
        b == ({
            let t = s@.subrange(lo as int, hi as int);
            t.len() >= 9 && t.subrange(0, 9) == "filename="@
        }),
{
    proof {
        reveal_strlit("filename=");
    }
    let ghost t = s@.subrange(lo as int, hi as int);
    if hi - lo < 9 {
        return false;
    }
    let mut j: usize = 0;
    while j < 9
        invariant
            lo + 9 <= hi <= s@.len(),
            t == s@.subrange(lo as int, hi as int),
            "filename="@.len() == 9,
            0 <= j <= 9,
            forall|m: int| 0 <= m < j ==> t[m] == "filename="@[m],
        decreases 9 - j,
    {
        proof {
            reveal_strlit("filename=");
        }
        if s.get_char(lo + j) != "filename=".get_char(j) {
            proof {
                if t.subrange(0, 9) == "filename="@ {
                    assert(t.subrange(0, 9)[j as int] == t[j as int]);
                }
            }
            return false;
        }
        j = j + 1;
    }
    proof {
        assert(t.subrange(0, 9) =~= "filename="@);
    }
    true
}

/// Parses the `Content-Disposition` response header's `filename=` parameter,
/// if the probe response carried one that names a relative path.
pub fn extract_filename_from_header(headers: &Vec<(String, String)>) -> (r: Option<String>)
    ensures
        match r {
            Some(name) => spec_filename_from_header(headers@) == Some(name@),
            None => spec_filename_from_header(headers@) is None,
        },
{
    let key = "content-disposition".to_owned();
    let value = match header_value(headers, &key) {
        Some(v) => v,
        None => {
            return None;
        },
    };
    let s = value.as_str();
    let n = s.unicode_len();
    proof {
        assert(s@.subrange(0, n as int) =~= s@);
    }
    let mut start: usize = 0;
    while start <= n
        invariant
            n == s@.len(),
            0 <= start <= n,
            spec_header_value(headers@, "content-disposition"@) == Some(s@),
            spec_parts_filename(spec_split(s@.subrange(start as int, n as int), ';'))
                == spec_parts_filename(spec_split(s@, ';')),
        decreases n + 1 - start,
    {
        let k = find_char_from(s, start, ';');
        let ghost suffix = s@.subrange(start as int, n as int);
        let ghost parts = spec_split(suffix, ';');
        proof {
            lemma_first_index_bounds(suffix, ';');
            if k < n {
                assert(suffix.subrange(k - start + 1, suffix.len() as int) =~= s@.subrange(
                    k + 1,
                    n as int,
                ));
            }
            assert(suffix.subrange(0, k - start) =~= s@.subrange(start as int, k as int));
            if k == n {
                assert(suffix =~= s@.subrange(start as int, k as int));
            }
            assert(parts[0] == s@.subrange(start as int, k as int));
        }
        // the current part is s[start..k]; trim it
        let (lo, hi) = trim_range(s, start, k);
        let ghost t = spec_trim(s@.subrange(start as int, k as int));
        if has_filename_prefix(s, lo, hi) {
            // found: the rest of the part, with surrounding quotes removed
            let (qlo, qhi) = trim_quote_range(s, lo + 9, hi);
            proof {
                assert(t.subrange(9, t.len() as int) =~= s@.subrange(lo + 9, hi as int));
                assert(spec_parts_filename(parts) == Some(
                    spec_trim_quotes(t.subrange(9, t.len() as int)),
                ));
            }
            let ghost cand = spec_trim_quotes(t.subrange(9, t.len() as int));
            proof {
                assert(cand == s@.subrange(qlo as int, qhi as int));
                assert(cand.len() == qhi - qlo);
                if qhi > qlo {
                    assert(cand[0] == s@[qlo as int]);
                }
            }
            if qhi > qlo && s.get_char(qlo) == '/' {
                proof {
                    assert(cand.len() > 0 && cand[0] == '/');
                }
                return None;
            }
            let name = s.substring_char(qlo, qhi).to_owned();
            proof {
                assert(name@ == cand);
                assert(!(cand.len() > 0 && cand[0] == '/'));
            }
            return Some(name);
        }
        proof {
            assert(parts.drop_first() =~= if k < n {
                spec_split(s@.subrange(k + 1, n as int), ';')
            } else {
                Seq::<Seq<char>>::empty()
            });
        }
        if k == n {
            proof {
                assert(spec_parts_filename(Seq::<Seq<char>>::empty()) is None);
                assert(spec_parts_filename(parts) is None);
            }
            return None;
        }
        start = k + 1;
    }
    proof {
        assert(false);
    }
    None
}

} // verus!
