use vstd::prelude::*;

verus! {

/// A semantic version: `major.minor.patch` with an optional pre-release.
/// The pre-release is kept as its dot-separated identifiers, each as raw
/// ASCII bytes; an empty identifier list means a full release.
pub struct Version {
    pub major: u64,
    pub minor: u64,
    pub patch: u64,
    pub pre: Vec<Vec<u8>>,
}

pub open spec fn is_digit_byte(b: u8) -> bool {
    48 <= b && b <= 57
}

pub open spec fn all_digit_bytes(s: Seq<u8>) -> bool {
    forall|i: int| 0 <= i < s.len() ==> is_digit_byte(#[trigger] s[i])
}

/// Plain lexicographic byte comparison; a proper prefix is smaller.
pub open spec fn lex_cmp(a: Seq<u8>, b: Seq<u8>) -> int
    decreases a.len(),
{
    if a.len() == 0 && b.len() == 0 {
        0
    } else if a.len() == 0 {
        -1
    } else if b.len() == 0 {
        1
    } else if a[0] < b[0] {
        -1
    } else if a[0] > b[0] {
        1
    } else {
        lex_cmp(a.skip(1), b.skip(1))
    }
}

/// One pre-release identifier against another: identifiers made only of
/// digits order numerically (length first, then lexicographically, since
/// valid numeric identifiers carry no leading zeros) and come before any
/// identifier with other characters; the rest order lexicographically.
pub open spec fn ident_cmp(a: Seq<u8>, b: Seq<u8>) -> int {
    if all_digit_bytes(a) && all_digit_bytes(b) {
        if a.len() < b.len() {
            -1
        } else if a.len() > b.len() {
            1
        } else {
            lex_cmp(a, b)
        }
    } else if all_digit_bytes(a) {
        -1
    } else if all_digit_bytes(b) {
        1
    } else {
        lex_cmp(a, b)
    }
}

/// Identifier lists compare pointwise; a proper prefix is smaller.
pub open spec fn idents_cmp(a: Seq<Seq<u8>>, b: Seq<Seq<u8>>) -> int
    decreases a.len(),
{
    if a.len() == 0 && b.len() == 0 {
        0
    } else if a.len() == 0 {
        -1
    } else if b.len() == 0 {
        1
    } else if ident_cmp(a[0], b[0]) != 0 {
        ident_cmp(a[0], b[0])
    } else {
        idents_cmp(a.skip(1), b.skip(1))
    }
}

/// Pre-release precedence: a full release outranks every pre-release;
/// two pre-releases compare by their identifier lists.
pub open spec fn pre_cmp(a: Seq<Seq<u8>>, b: Seq<Seq<u8>>) -> int {
    if a.len() == 0 && b.len() == 0 {
        0
    } else if a.len() == 0 {
        1
    } else if b.len() == 0 {
        -1
    } else {
        idents_cmp(a, b)
    }
}

/// The sequence of identifier byte-views of a pre-release.
pub open spec fn bytes_view(s: Seq<Vec<u8>>) -> Seq<Seq<u8>> {
    Seq::new(s.len(), |i: int| s[i]@)
}

/// Semantic-version ordering over plain views: major, then minor, then
/// patch, then pre-release precedence. Negative means the first is
/// lower, zero equal, positive higher.
pub open spec fn view_cmp(a: (u64, u64, u64, Seq<Seq<u8>>), b: (u64, u64, u64, Seq<Seq<u8>>)) -> int {
    if a.0 != b.0 {
        if a.0 < b.0 {
            -1
        } else {
            1
        }
    } else if a.1 != b.1 {
        if a.1 < b.1 {
            -1
        } else {
            1
        }
    } else if a.2 != b.2 {
        if a.2 < b.2 {
            -1
        } else {
            1
        }
    } else {
        pre_cmp(a.3, b.3)
    }
}

pub open spec fn spec_view_le(a: (u64, u64, u64, Seq<Seq<u8>>), b: (u64, u64, u64, Seq<Seq<u8>>)) -> bool {
    view_cmp(a, b) <= 0
}

/// The same ordering on `Version` values.
pub open spec fn spec_version_cmp(a: Version, b: Version) -> int {
    view_cmp(version_view(a), version_view(b))
}

pub open spec fn spec_version_le(a: Version, b: Version) -> bool {
    spec_version_cmp(a, b) <= 0
}

pub open spec fn spec_version_lt(a: Version, b: Version) -> bool {
    spec_version_cmp(a, b) < 0
}

fn lex_cmp_at(a: &Vec<u8>, b: &Vec<u8>, i: usize) -> (r: i8)
    requires
        i <= a@.len(),
        i <= b@.len(),
    ensures
        r as int == lex_cmp(a@.skip(i as int), b@.skip(i as int)),
        -1 <= r <= 1,
    decreases a@.len() - i,
{
    proof {
        assert(a@.skip(i as int).len() == a@.len() - i);
        assert(b@.skip(i as int).len() == b@.len() - i);
    }
    if i == a.len() && i == b.len() {
        0
    } else if i == a.len() {
        -1
    } else if i == b.len() {
        1
    } else {
        proof {
            assert(a@.skip(i as int)[0] == a@[i as int]);
            assert(b@.skip(i as int)[0] == b@[i as int]);
        }
        if a[i] < b[i] {
            -1
        } else if a[i] > b[i] {
            1
        } else {
            let r = lex_cmp_at(a, b, i + 1);
            proof {
                assert(a@.skip(i as int).skip(1) =~= a@.skip(i as int + 1));
                assert(b@.skip(i as int).skip(1) =~= b@.skip(i as int + 1));
            }
            r
        }
    }
}

fn all_digits_exec(a: &Vec<u8>) -> (r: bool)
    ensures
        r == all_digit_bytes(a@),
{
    let mut i: usize = 0;
    while i < a.len()
        invariant
            i <= a@.len(),
            forall|j: int| 0 <= j < i ==> is_digit_byte(#[trigger] a@[j]),
        decreases a@.len() - i,
    {
        if a[i] < 48 || a[i] > 57 {
            return false;
        }
        i = i + 1;
    }
    true
}

fn ident_cmp_exec(a: &Vec<u8>, b: &Vec<u8>) -> (r: i8)
    ensures
        r as int == ident_cmp(a@, b@),
        -1 <= r <= 1,
{
    proof {
        assert(a@.skip(0) =~= a@);
        assert(b@.skip(0) =~= b@);
    }
    let da = all_digits_exec(a);
    let db = all_digits_exec(b);
    if da && db {
        if a.len() < b.len() {
            -1
        } else if a.len() > b.len() {
            1
        } else {
            lex_cmp_at(a, b, 0)
        }
    } else if da {
        -1
    } else if db {
        1
    } else {
        lex_cmp_at(a, b, 0)
    }
}

fn idents_cmp_at(a: &Vec<Vec<u8>>, b: &Vec<Vec<u8>>, i: usize) -> (r: i8)
    requires
        i <= a@.len(),
        i <= b@.len(),
    ensures
        r as int == idents_cmp(bytes_view(a@).skip(i as int), bytes_view(b@).skip(i as int)),
        -1 <= r <= 1,
    decreases a@.len() - i,
{
    proof {
        assert(bytes_view(a@).len() == a@.len());
        assert(bytes_view(b@).len() == b@.len());
    }
    if i == a.len() && i == b.len() {
        0
    } else if i == a.len() {
        -1
    } else if i == b.len() {
        1
    } else {
        proof {
            assert(bytes_view(a@).skip(i as int)[0] == a@[i as int]@);
            assert(bytes_view(b@).skip(i as int)[0] == b@[i as int]@);
        }
        let c = ident_cmp_exec(&a[i], &b[i]);
        if c != 0 {
            c
        } else {
            let r = idents_cmp_at(a, b, i + 1);
            proof {
                assert(bytes_view(a@).skip(i as int).skip(1) =~= bytes_view(a@).skip(
                    i as int + 1,
                ));
                assert(bytes_view(b@).skip(i as int).skip(1) =~= bytes_view(b@).skip(
                    i as int + 1,
                ));
            }
            r
        }
    }
}

/// Compare two versions under semantic-version ordering.
pub fn version_cmp(a: &Version, b: &Version) -> (r: i8)
    ensures
        r as int == spec_version_cmp(*a, *b),
        -1 <= r <= 1,
{
    if a.major != b.major {
        if a.major < b.major {
            -1
        } else {
            1
        }
    } else if a.minor != b.minor {
        if a.minor < b.minor {
            -1
        } else {
            1
        }
    } else if a.patch != b.patch {
        if a.patch < b.patch {
            -1
        } else {
            1
        }
    } else {
        let an = a.pre.len();
        let bn = b.pre.len();
        if an == 0 && bn == 0 {
            0
        } else if an == 0 {
            1
        } else if bn == 0 {
            -1
        } else {
            proof {
                assert(bytes_view(a.pre@).skip(0) =~= bytes_view(a.pre@));
                assert(bytes_view(b.pre@).skip(0) =~= bytes_view(b.pre@));
            }
            idents_cmp_at(&a.pre, &b.pre, 0)
        }
    }
}

/// Whether a probed version `v` satisfies the minimum requirement `min`,
/// that is, `min <= v` under semantic-version ordering.
pub fn meets_minimum(v: &Version, min: &Version) -> (r: bool)
    ensures
        r == spec_version_le(*min, *v),
{
    version_cmp(min, v) <= 0
}

proof fn lemma_lex_cmp_antisym(a: Seq<u8>, b: Seq<u8>)
    ensures
        lex_cmp(a, b) == -lex_cmp(b, a),
    decreases a.len(),
{
    if a.len() > 0 && b.len() > 0 && a[0] == b[0] {
        lemma_lex_cmp_antisym(a.skip(1), b.skip(1));
    }
}

proof fn lemma_idents_cmp_antisym(a: Seq<Seq<u8>>, b: Seq<Seq<u8>>)
    ensures
        idents_cmp(a, b) == -idents_cmp(b, a),
    decreases a.len(),
{
    if a.len() > 0 && b.len() > 0 {
        lemma_lex_cmp_antisym(a[0], b[0]);
        if ident_cmp(a[0], b[0]) == 0 {
            lemma_idents_cmp_antisym(a.skip(1), b.skip(1));
        }
    }
}

/// Semantic-version ordering is antisymmetric: swapping the operands
/// negates the comparison.
pub proof fn lemma_version_cmp_antisym(a: Version, b: Version)
    ensures
        spec_version_cmp(a, b) == -spec_version_cmp(b, a),
{
    if a.major == b.major && a.minor == b.minor && a.patch == b.patch {
        lemma_idents_cmp_antisym(bytes_view(a.pre@), bytes_view(b.pre@));
    }
}

/// Law: a reported version at or above the minimum always qualifies, and
/// one strictly below the minimum never does; the two cases exclude each
/// other for every pair of versions.
pub proof fn lemma_minimum_is_exact(reported: Version, minimum: Version)
    ensures
        spec_version_le(minimum, reported) ==> !spec_version_lt(reported, minimum),
        spec_version_lt(reported, minimum) ==> !spec_version_le(minimum, reported),
{
    lemma_version_cmp_antisym(reported, minimum);
}

/// Which byte the trailing version token is split out at: the last space
/// for plain `--version` output, the last `v` for the integrated
/// compose-plugin form.
#[derive(Clone, Copy, PartialEq, Eq, Structural, Debug)]
pub enum ParseRule {
    LastSpace,
    LastV,
}

pub open spec fn rule_sep(rule: ParseRule) -> u8 {
    match rule {
        ParseRule::LastSpace => 32,
        ParseRule::LastV => 118,
    }
}

/// Index of the last occurrence of `b` in `s`, or -1 when absent.
pub open spec fn last_pos(s: Seq<u8>, b: u8) -> int
    decreases s.len(),
{
    if s.len() == 0 {
        -1
    } else if s[s.len() - 1] == b {
        s.len() - 1
    } else {
        last_pos(s.take(s.len() - 1), b)
    }
}

pub open spec fn is_ws_byte(b: u8) -> bool {
    b == 32 || b == 9 || b == 10 || b == 11 || b == 12 || b == 13
}

pub open spec fn trim_start(s: Seq<u8>) -> Seq<u8>
    decreases s.len(),
{
    if s.len() > 0 && is_ws_byte(s[0]) {
        trim_start(s.skip(1))
    } else {
        s
    }
}

pub open spec fn trim_end(s: Seq<u8>) -> Seq<u8>
    decreases s.len(),
{
    if s.len() > 0 && is_ws_byte(s[s.len() - 1]) {
        trim_end(s.take(s.len() - 1))
    } else {
        s
    }
}

/// ASCII whitespace stripped from both ends.
pub open spec fn spec_trim(s: Seq<u8>) -> Seq<u8> {
    trim_end(trim_start(s))
}

/// The trimmed text after the last occurrence of `sep`, or nothing when
/// `sep` does not occur.
pub open spec fn spec_token_after_last(s: Seq<u8>, sep: u8) -> Option<Seq<u8>> {
    let p = last_pos(s, sep);
    if p < 0 {
        None
    } else {
        Some(spec_trim(s.skip(p + 1)))
    }
}

/// Split on a separator byte, cons-style: the result always has one
/// more element than the input has separators.
pub open spec fn split_on(s: Seq<u8>, sep: u8) -> Seq<Seq<u8>>
    decreases s.len(),
{
    if s.len() == 0 {
        seq![Seq::empty()]
    } else if s[0] == sep {
        seq![Seq::<u8>::empty()] + split_on(s.skip(1), sep)
    } else {
        let r = split_on(s.skip(1), sep);
        seq![seq![s[0]] + r[0]] + r.skip(1)
    }
}

/// A pre-release string splits on dots.
pub open spec fn split_dots(s: Seq<u8>) -> Seq<Seq<u8>> {
    split_on(s, 46)
}

/// The identifiers of a raw pre-release byte string: none when it is
/// empty, its dot-separated pieces otherwise.
pub open spec fn pre_idents_of(pre: Seq<u8>) -> Seq<Seq<u8>> {
    if pre.len() == 0 {
        Seq::empty()
    } else {
        split_dots(pre)
    }
}

/// What `semver::Version::parse` yields on the given bytes: major, minor,
/// patch and the raw pre-release text, or nothing when the bytes are not
/// a valid semantic version.
pub uninterp spec fn semver_of(s: Seq<u8>) -> Option<(u64, u64, u64, Seq<u8>)>;

/// Relies on `semver::Version::parse`: the result is read off the parsed
/// `semver::Version` (build metadata plays no part in precedence and is
/// dropped), and depends on the input bytes alone.
#[verifier::external_body]
fn parse_semver(token: &[u8]) -> (r: Option<(u64, u64, u64, Vec<u8>)>)
    ensures
        match r {
            Some(q) => semver_of(token@) == Some((q.0, q.1, q.2, q.3@)),
            None => semver_of(token@) is None,
        },
{
    let s = match core::str::from_utf8(token) {
        Ok(s) => s,
        Err(_) => return None,
    };
    match semver::Version::parse(s) {
        Ok(v) => Some((v.major, v.minor, v.patch, v.pre.as_str().as_bytes().to_vec())),
        Err(_) => None,
    }
}

/// The version a whole byte string parses to, as plain values.
pub open spec fn spec_version_of(s: Seq<u8>) -> Option<(u64, u64, u64, Seq<Seq<u8>>)> {
    match semver_of(s) {
        None => None,
        Some(t) => Some((t.0, t.1, t.2, pre_idents_of(t.3))),
    }
}

/// The version parsed out of raw tool output under the given rule.
pub open spec fn spec_parse_output(output: Seq<u8>, rule: ParseRule) -> Option<
    (u64, u64, u64, Seq<Seq<u8>>),
> {
    match spec_token_after_last(output, rule_sep(rule)) {
        None => None,
        Some(tok) => spec_version_of(tok),
    }
}

pub open spec fn version_view(v: Version) -> (u64, u64, u64, Seq<Seq<u8>>) {
    (v.major, v.minor, v.patch, bytes_view(v.pre@))
}

fn find_last(s: &[u8], sep: u8) -> (r: Option<usize>)
    ensures
        match r {
            Some(p) => last_pos(s@, sep) == p as int && p < s@.len(),
            None => last_pos(s@, sep) == -1,
        },
{
    let mut i: usize = s.len();
    proof {
        assert(s@.take(s@.len() as int) =~= s@);
    }
    while i > 0
        invariant
            i <= s@.len(),
            last_pos(s@, sep) == last_pos(s@.take(i as int), sep),
        decreases i,
    {
        let j = i - 1;
        proof {
            assert(s@.take(i as int).len() == i);
            assert(s@.take(i as int)[i - 1] == s@[j as int]);
            assert(s@.take(i as int).take(i - 1) =~= s@.take(j as int));
        }
        if *vstd::slice::slice_index_get(s, j) == sep {
            return Some(j);
        }
        i = j;
    }
    None
}

fn is_ws_exec(b: u8) -> (r: bool)
    ensures
        r == is_ws_byte(b),
{
    b == 32 || b == 9 || b == 10 || b == 11 || b == 12 || b == 13
}

pub(crate) proof fn lemma_trim_start_at(s: Seq<u8>, k: int)
    requires
        0 <= k <= s.len(),
        forall|j: int| 0 <= j < k ==> is_ws_byte(#[trigger] s[j]),
        k == s.len() || !is_ws_byte(s[k]),
    ensures
        trim_start(s) == s.skip(k),
    decreases k,
{
    if k == 0 {
        assert(s.skip(0) =~= s);
    } else {
        assert(is_ws_byte(s[0]));
        lemma_trim_start_at(s.skip(1), k - 1);
        assert(s.skip(1).skip(k - 1) =~= s.skip(k));
    }
}

proof fn lemma_trim_end_at(s: Seq<u8>, k: int)
    requires
        0 <= k <= s.len(),
        forall|j: int| k <= j < s.len() ==> is_ws_byte(#[trigger] s[j]),
        k == 0 || !is_ws_byte(s[k - 1]),
    ensures
        trim_end(s) == s.take(k),
    decreases s.len() - k,
{
    if k == s.len() {
        assert(s.take(k) =~= s);
    } else {
        assert(is_ws_byte(s[s.len() - 1]));
        lemma_trim_end_at(s.take(s.len() - 1), k);
    }
}

fn trim_ascii<'a>(s: &'a [u8]) -> (r: &'a [u8])
    ensures
        r@ == spec_trim(s@),
{
    let n = s.len();
    let mut lo: usize = 0;
    while lo < n && is_ws_exec(*vstd::slice::slice_index_get(s, lo))
        invariant
            n == s@.len(),
            lo <= n,
            forall|j: int| 0 <= j < lo ==> is_ws_byte(#[trigger] s@[j]),
        decreases n - lo,
    {
        lo = lo + 1;
    }
    let mut hi: usize = n;
    while hi > lo && is_ws_exec(*vstd::slice::slice_index_get(s, hi - 1))
        invariant
            n == s@.len(),
            lo <= hi <= n,
            forall|j: int| hi <= j < n ==> is_ws_byte(#[trigger] s@[j]),
        decreases hi,
    {
        hi = hi - 1;
    }
    proof {
        lemma_trim_start_at(s@, lo as int);
        let t = s@.skip(lo as int);
        assert(forall|j: int|
            hi - lo <= j < t.len() ==> is_ws_byte(#[trigger] t[j]) && t[j] == s@[j + lo]);
        if hi > lo {
            assert(t[hi - lo - 1] == s@[hi - 1]);
        }
        lemma_trim_end_at(t, hi - lo);
        assert(t.take(hi - lo) =~= s@.subrange(lo as int, hi as int));
    }
    vstd::slice::slice_subrange(s, lo, hi)
}

pub(crate) fn split_on_exec(s: &[u8], i: usize, sep: u8) -> (r: Vec<Vec<u8>>)
    requires
        i <= s@.len(),
    ensures
        bytes_view(r@) == split_on(s@.skip(i as int), sep),
        r@.len() >= 1,
    decreases s@.len() - i,
{
    if i == s.len() {
        let mut r: Vec<Vec<u8>> = Vec::new();
        r.push(Vec::new());
        proof {
            assert(s@.skip(i as int).len() == 0);
            assert(bytes_view(r@) =~= seq![Seq::<u8>::empty()]);
        }
        r
    } else if *vstd::slice::slice_index_get(s, i) == sep {
        let mut r = split_on_exec(s, i + 1, sep);
        r.insert(0, Vec::new());
        proof {
            assert(s@.skip(i as int)[0] == s@[i as int]);
            assert(s@.skip(i as int).skip(1) =~= s@.skip(i as int + 1));
            assert(bytes_view(r@) =~= seq![Seq::<u8>::empty()] + split_on(
                s@.skip(i as int + 1),
                sep,
            ));
        }
        r
    } else {
        let b = *vstd::slice::slice_index_get(s, i);
        let mut r = split_on_exec(s, i + 1, sep);
        let ghost prev = r@;
        let mut head = r.remove(0);
        head.insert(0, b);
        r.insert(0, head);
        proof {
            let rest = split_on(s@.skip(i as int + 1), sep);
            assert(s@.skip(i as int)[0] == s@[i as int]);
            assert(s@.skip(i as int).skip(1) =~= s@.skip(i as int + 1));
            let want = seq![seq![b] + rest[0]] + rest.skip(1);
            assert(head@ =~= seq![b] + rest[0]);
            assert(r@.len() == prev.len() && want.len() == rest.len());
            assert forall|j: int| 0 <= j < r@.len() implies bytes_view(r@)[j] == want[j] by {
                if j == 0 {
                    assert(r@[0] == head);
                } else {
                    assert(r@[j] == prev.remove(0)[j - 1]);
                    assert(prev.remove(0)[j - 1] == prev[j]);
                    assert(bytes_view(prev)[j] == rest[j]);
                }
            }
            assert(bytes_view(r@) =~= want);
        }
        r
    }
}

/// Parse a whole byte string as a semantic version, as a caller-supplied
/// minimum requirement is parsed.
pub fn parse_version(s: &[u8]) -> (r: Option<Version>)
    ensures
        match r {
            Some(v) => spec_version_of(s@) == Some(version_view(v)),
            None => spec_version_of(s@) is None,
        },
{
    let q = match parse_semver(s) {
        Some(q) => q,
        None => return None,
    };
    let pre = if q.3.len() == 0 {
        Vec::new()
    } else {
        split_on_exec(q.3.as_slice(), 0, 46)
    };
    proof {
        if q.3@.len() != 0 {
            assert(q.3@.skip(0) =~= q.3@);
        } else {
            assert(bytes_view(pre@) =~= Seq::<Seq<u8>>::empty());
        }
    }
    Some(Version { major: q.0, minor: q.1, patch: q.2, pre })
}

/// Extract and parse the trailing version token of raw tool output:
/// everything after the last separator the rule names, trimmed of ASCII
/// whitespace, handed to the semantic-version parser.
pub fn parse_tool_version(output: &[u8], rule: ParseRule) -> (r: Option<Version>)
    ensures
        match r {
            Some(v) => spec_parse_output(output@, rule) == Some(version_view(v)),
            None => spec_parse_output(output@, rule) is None,
        },
{
    let sep: u8 = match rule {
        ParseRule::LastSpace => 32,
        ParseRule::LastV => 118,
    };
    let p = match find_last(output, sep) {
        Some(p) => p,
        None => return None,
    };
    let n = output.len();
    assert(p < n);
    let tail = vstd::slice::slice_subrange(output, p + 1, n);
    proof {
        assert(tail@ =~= output@.skip(p + 1));
    }
    let tok = trim_ascii(tail);
    parse_version(tok)
}

} // verus!
