//! Target resolution: choosing among resolver candidates by IP family.

use vstd::prelude::*;

verus! {

/// Address family of a single resolver candidate.
#[derive(Clone, Copy, Debug, PartialEq, Eq, Structural)]
pub enum IpFamily {
    V4,
    V6,
}

/// Which address families a run accepts; exactly one value is active for a
/// whole run.
#[derive(Clone, Copy, Debug, PartialEq, Eq, Structural)]
pub enum IpFamilyPreference {
    IPv4Only,
    IPv6Only,
    Any,
}

/// Why resolution failed.
#[derive(Clone, Copy, Debug, PartialEq, Eq, Structural)]
pub enum ResolutionError {
    /// The port substring does not parse as an unsigned 16-bit integer.
    InvalidPort,
    /// No resolver candidate survives the family filter (or the lookup
    /// itself produced nothing).
    NoMatchingAddress,
}

/// Byte values the host grammar is built from.
pub const COLON: u8 = 58;

pub const LBRACKET: u8 = 91;

pub const RBRACKET: u8 = 93;

pub const PLUS: u8 = 43;

/// Number of colons in `s` at positions `i` and beyond.
pub open spec fn colon_count_from(s: Seq<u8>, i: int) -> nat
    decreases s.len() - i,
{
    if i >= s.len() || i < 0 {
        0
    } else {
        (if s[i] == COLON {
            1nat
        } else {
            0nat
        }) + colon_count_from(s, i + 1)
    }
}

/// Number of colons in `s`.
pub open spec fn colon_count(s: Seq<u8>) -> nat {
    colon_count_from(s, 0)
}

/// Index of the first colon in `s` at position `i` or beyond; `s.len()` when
/// there is none.
pub open spec fn first_colon_from(s: Seq<u8>, i: int) -> int
    decreases s.len() - i,
{
    if i >= s.len() || i < 0 {
        s.len() as int
    } else if s[i] == COLON {
        i
    } else {
        first_colon_from(s, i + 1)
    }
}

/// Index of the first colon in `s`; `s.len()` when there is none.
pub open spec fn first_colon(s: Seq<u8>) -> int {
    first_colon_from(s, 0)
}

/// Index of the last colon in `s` strictly before position `i`; `-1` when
/// there is none.
pub open spec fn last_colon_before(s: Seq<u8>, i: int) -> int
    decreases i,
{
    if i <= 0 || i > s.len() {
        -1
    } else if s[i - 1] == COLON {
        i - 1
    } else {
        last_colon_before(s, i - 1)
    }
}

/// Index of the last colon in `s`; `-1` when there is none.
pub open spec fn last_colon(s: Seq<u8>) -> int {
    last_colon_before(s, s.len() as int)
}

/// Does `s` contain the two-byte substring `]:`?
pub open spec fn has_bracket_colon(s: Seq<u8>) -> bool {
    exists|k: int| 0 <= k && k + 1 < s.len() && #[trigger] s[k] == RBRACKET && s[k + 1] == COLON
}

/// Is `s` wrapped in brackets (`[` first, `]` last, length at least two)?
pub open spec fn is_bracketed(s: Seq<u8>) -> bool {
    s.len() >= 2 && s[0] == LBRACKET && s[s.len() - 1] == RBRACKET
}

/// There are no colons at positions `i` and beyond exactly when the count
/// from `i` is zero.
pub proof fn lemma_colon_count_zero(s: Seq<u8>, i: int)
    requires
        0 <= i,
    ensures
        colon_count_from(s, i) == 0 <==> (forall|j: int| i <= j < s.len() ==> s[j] != COLON),
    decreases s.len() - i,
{
    if i < s.len() && i >= 0 {
        lemma_colon_count_zero(s, i + 1);
    }
}

/// The first colon at or after `i` is a colon, nothing before it (from `i`)
/// is one, and it lies within the string exactly when the count from `i` is
/// nonzero.
pub proof fn lemma_first_colon_props(s: Seq<u8>, i: int)
    requires
        0 <= i <= s.len(),
    ensures
        i <= first_colon_from(s, i) <= s.len(),
        first_colon_from(s, i) < s.len() ==> s[first_colon_from(s, i)] == COLON,
        forall|j: int| i <= j < first_colon_from(s, i) ==> s[j] != COLON,
        (first_colon_from(s, i) == s.len()) <==> (colon_count_from(s, i) == 0),
    decreases s.len() - i,
{
    if i < s.len() {
        if s[i] != COLON {
            lemma_first_colon_props(s, i + 1);
        } else {
            lemma_colon_count_zero(s, i);
        }
    }
}

/// The last colon before `i` is a colon and nothing after it (up to `i`) is
/// one; when it is `-1`, nothing before `i` is a colon.
pub proof fn lemma_last_colon_props(s: Seq<u8>, i: int)
    requires
        0 <= i <= s.len(),
    ensures
        -1 <= last_colon_before(s, i) < i,
        last_colon_before(s, i) >= 0 ==> s[last_colon_before(s, i)] == COLON,
        forall|j: int| last_colon_before(s, i) < j < i ==> s[j] != COLON,
    decreases i,
{
    if i > 0 {
        if s[i - 1] != COLON {
            lemma_last_colon_props(s, i - 1);
        }
    }
}

/// A string whose only colon is at position `p` has colon count one from any
/// position at or before `p`.
pub proof fn lemma_colon_count_unique(s: Seq<u8>, i: int, p: int)
    requires
        0 <= i <= p < s.len(),
        s[p] == COLON,
        forall|j: int| i <= j < s.len() && j != p ==> s[j] != COLON,
    ensures
        colon_count_from(s, i) == 1,
    decreases s.len() - i,
{
    if i == p {
        lemma_colon_count_zero(s, i + 1);
    } else {
        lemma_colon_count_unique(s, i + 1, p);
    }
}

/// When a string contains `]:` but not exactly one colon, its last colon sits
/// at index two or later, so stripping the bracket pair before it is in
/// bounds.
pub proof fn lemma_bracket_colon_last(s: Seq<u8>)
    requires
        colon_count(s) != 1,
        has_bracket_colon(s),
    ensures
        2 <= last_colon(s) < s.len(),
        s[last_colon(s)] == COLON,
{
    let k = choose|k: int|
        0 <= k && k + 1 < s.len() && #[trigger] s[k] == RBRACKET && s[k + 1] == COLON;
    lemma_last_colon_props(s, s.len() as int);
    let l = last_colon(s);
    // a colon exists at k + 1, so the last colon is at k + 1 or later
    assert(l >= k + 1);
    if l <= 1 {
        // then l == 1, k == 0, and s[0] is `]`, so the colon at 1 is the
        // only colon, contradicting the colon count
        assert(forall|j: int| 0 <= j < s.len() && j != 1 ==> s[j] != COLON);
        lemma_colon_count_unique(s, 0, 1);
    }
}

/// The host chosen by the disambiguation rules, in priority order: split at
/// a lone colon; strip the bracket pair before the last colon of a
/// bracketed-with-port form; strip a plain bracket pair; otherwise the whole
/// string.
pub open spec fn host_part(host: Seq<u8>) -> Seq<u8> {
    if colon_count(host) == 1 {
        host.subrange(0, first_colon(host))
    } else if has_bracket_colon(host) {
        host.subrange(1, last_colon(host) - 1)
    } else if is_bracketed(host) {
        host.subrange(1, host.len() - 1)
    } else {
        host
    }
}

/// The port substring chosen by the disambiguation rules: the suffix after
/// the lone colon, the suffix after the last colon of a bracketed-with-port
/// form, or the separately supplied default.
pub open spec fn port_part(host: Seq<u8>, default_port: Seq<u8>) -> Seq<u8> {
    if colon_count(host) == 1 {
        host.subrange(first_colon(host) + 1, host.len() as int)
    } else if has_bracket_colon(host) {
        host.subrange(last_colon(host) + 1, host.len() as int)
    } else {
        default_port
    }
}

/// Copy the bytes of `s` at positions `from..to` into a fresh vector.
fn copy_bytes(s: &Vec<u8>, from: usize, to: usize) -> (r: Vec<u8>)
    requires
        from <= to <= s@.len(),
    ensures
        r@ == s@.subrange(from as int, to as int),
{
    let mut r: Vec<u8> = Vec::new();
    let mut i: usize = from;
    while i < to
        invariant
            from <= i <= to <= s@.len(),
            r@ == s@.subrange(from as int, i as int),
        decreases to - i,
    {
        r.push(s[i]);
        i = i + 1;
        proof {
            assert(r@ =~= s@.subrange(from as int, i as int));
        }
    }
    r
}

/// Count the colons in `s`.
fn count_colons(s: &Vec<u8>) -> (c: usize)
    ensures
        c == colon_count(s@),
{
    let n = s.len();
    let mut c: usize = 0;
    let mut i: usize = 0;
    while i < n
        invariant
            i <= n == s@.len(),
            c <= i,
            colon_count(s@) == c + colon_count_from(s@, i as int),
        decreases n - i,
    {
        if s[i] == COLON {
            c = c + 1;
        }
        i = i + 1;
    }
    c
}

/// Find the position of the first colon in `s`; `s.len()` when there is
/// none.
fn find_first_colon(s: &Vec<u8>) -> (r: usize)
    ensures
        r == first_colon(s@),
{
    let n = s.len();
    let mut i: usize = 0;
    while i < n
        invariant
            i <= n == s@.len(),
            first_colon(s@) == first_colon_from(s@, i as int),
        decreases n - i,
    {
        if s[i] == COLON {
            return i;
        }
        i = i + 1;
    }
    i
}

/// Find the position of the last colon in `s`; `None` when there is none.
fn find_last_colon(s: &Vec<u8>) -> (r: Option<usize>)
    ensures
        match r {
            Some(p) => p == last_colon(s@) && 0 <= last_colon(s@),
            None => last_colon(s@) == -1,
        },
{
    let mut i: usize = s.len();
    while i > 0
        invariant
            i <= s@.len(),
            last_colon(s@) == last_colon_before(s@, i as int),
        decreases i,
    {
        if s[i - 1] == COLON {
            return Some(i - 1);
        }
        i = i - 1;
    }
    None
}

/// Does `s` contain the two-byte substring `]:`?
fn contains_bracket_colon(s: &Vec<u8>) -> (r: bool)
    ensures
        r == has_bracket_colon(s@),
{
    let n = s.len();
    if n < 2 {
        return false;
    }
    let mut i: usize = 0;
    while i < n - 1
        invariant
            2 <= n == s@.len(),
            i <= n,
            forall|k: int| 0 <= k < i ==> !(#[trigger] s@[k] == RBRACKET && s@[k + 1] == COLON),
        decreases n - i,
    {
        if s[i] == RBRACKET && s[i + 1] == COLON {
            return true;
        }
        i = i + 1;
    }
    false
}

/// Split a raw host string into its host and port substrings, applying the
/// disambiguation rules in priority order. The default port is returned as
/// the port substring whenever the host does not embed a port of its own.
pub fn split_host_port(host: &Vec<u8>, default_port: &Vec<u8>) -> (r: (Vec<u8>, Vec<u8>))
    ensures
        r.0@ == host_part(host@),
        r.1@ == port_part(host@, default_port@),
{
    let n = host.len();
    let cc = count_colons(host);
    if cc == 1 {
        let p = find_first_colon(host);
        proof {
            lemma_first_colon_props(host@, 0);
        }
        let h = copy_bytes(host, 0, p);
        let q = copy_bytes(host, p + 1, n);
        (h, q)
    } else if contains_bracket_colon(host) {
        proof {
            lemma_bracket_colon_last(host@);
        }
        // the host contains `]:`, so it has a last colon, at index 2 or later
        let p = match find_last_colon(host) {
            Some(p) => p,
            None => {
                proof {
                    assert(false);
                }
                0
            },
        };
        let h = copy_bytes(host, 1, p - 1);
        let q = copy_bytes(host, p + 1, n);
        (h, q)
    } else if n >= 2 && host[0] == LBRACKET && host[n - 1] == RBRACKET {
        let h = copy_bytes(host, 1, n - 1);
        let q = copy_bytes(default_port, 0, default_port.len());
        proof {
            assert(q@ =~= default_port@);
        }
        (h, q)
    } else {
        let h = copy_bytes(host, 0, n);
        let q = copy_bytes(default_port, 0, default_port.len());
        proof {
            assert(h@ =~= host@);
            assert(q@ =~= default_port@);
        }
        (h, q)
    }
}

/// Is `c` an ASCII decimal digit?
pub open spec fn is_digit(c: u8) -> bool {
    48 <= c <= 57
}

/// Is every byte of `s` an ASCII decimal digit?
pub open spec fn digits_only(s: Seq<u8>) -> bool {
    forall|j: int| 0 <= j < s.len() ==> is_digit(#[trigger] s[j])
}

/// The number denoted by `s` read as decimal digits (most significant
/// first); meaningful only when `s` holds digits.
pub open spec fn dec_value(s: Seq<u8>) -> int
    decreases s.len(),
{
    if s.len() == 0 {
        0
    } else {
        dec_value(s.drop_last()) * 10 + (s.last() - 48)
    }
}

/// `s` with one leading `+` sign removed, as the standard integer parser
/// accepts.
pub open spec fn strip_plus(s: Seq<u8>) -> Seq<u8> {
    if s.len() > 0 && s[0] == PLUS {
        s.subrange(1, s.len() as int)
    } else {
        s
    }
}

/// Does `s` parse as an unsigned 16-bit port number: after an optional
/// leading `+`, a nonempty run of digits denoting at most 65535?
pub open spec fn port_ok(s: Seq<u8>) -> bool {
    let t = strip_plus(s);
    t.len() > 0 && digits_only(t) && dec_value(t) <= 65535
}

/// The port number denoted by `s`; meaningful only when `port_ok(s)`.
pub open spec fn port_value(s: Seq<u8>) -> int {
    dec_value(strip_plus(s))
}

/// A digit string denotes a nonnegative number.
pub proof fn lemma_dec_value_nonneg(s: Seq<u8>)
    requires
        digits_only(s),
    ensures
        dec_value(s) >= 0,
    decreases s.len(),
{
    if s.len() > 0 {
        assert(digits_only(s.drop_last())) by {
            assert(forall|j: int|
                0 <= j < s.len() - 1 ==> #[trigger] s.drop_last()[j] == s[j]);
        }
        lemma_dec_value_nonneg(s.drop_last());
    }
}

/// A digit string denotes at least as much as any of its prefixes.
pub proof fn lemma_dec_value_prefix(s: Seq<u8>, i: int)
    requires
        digits_only(s),
        0 <= i <= s.len(),
    ensures
        dec_value(s.subrange(0, i)) <= dec_value(s),
    decreases s.len() - i,
{
    if i == s.len() {
        assert(s.subrange(0, i) =~= s);
    } else {
        lemma_dec_value_prefix(s, i + 1);
        let p = s.subrange(0, i + 1);
        assert(p.drop_last() =~= s.subrange(0, i));
        assert(p.last() == s[i]);
        lemma_dec_value_nonneg(s.subrange(0, i));
    }
}

/// Parse a port substring as an unsigned 16-bit integer: an optional leading
/// `+`, then one or more decimal digits denoting at most 65535. Anything
/// else is `InvalidPort`.
pub fn parse_port(s: &Vec<u8>) -> (r: Result<u16, ResolutionError>)
    ensures
        match r {
            Ok(v) => port_ok(s@) && v == port_value(s@),
            Err(e) => e == ResolutionError::InvalidPort && !port_ok(s@),
        },
{
    let n = s.len();
    let start: usize = if n > 0 && s[0] == PLUS {
        1
    } else {
        0
    };
    let ghost t = strip_plus(s@);
    proof {
        assert(t =~= s@.subrange(start as int, n as int));
    }
    if start >= n {
        return Err(ResolutionError::InvalidPort);
    }
    let mut acc: u32 = 0;
    let mut i: usize = start;
    while i < n
        invariant
            start <= i <= n == s@.len(),
            t == strip_plus(s@),
            t == s@.subrange(start as int, n as int),
            digits_only(s@.subrange(start as int, i as int)),
            acc <= 65535,
            acc == dec_value(s@.subrange(start as int, i as int)),
        decreases n - i,
    {
        let c = s[i];
        if c < 48 || c > 57 {
            proof {
                assert(t[i - start] == s@[i as int]);
                assert(!digits_only(t));
                assert(!port_ok(s@));
            }
            return Err(ResolutionError::InvalidPort);
        }
        let d = (c - 48) as u32;
        let next = acc * 10 + d;
        proof {
            let p = s@.subrange(start as int, i + 1);
            assert(p.drop_last() =~= s@.subrange(start as int, i as int));
            assert(p.last() == s@[i as int]);
            assert(digits_only(p));
            assert(dec_value(p) == dec_value(p.drop_last()) * 10 + (p.last() - 48));
            assert(dec_value(p) == acc * 10 + d);
        }
        if next > 65535 {
            proof {
                if digits_only(t) {
                    let p = s@.subrange(start as int, i + 1);
                    assert(p =~= t.subrange(0, i + 1 - start));
                    lemma_dec_value_prefix(t, i + 1 - start);
                    assert(dec_value(t) >= dec_value(p));
                    assert(dec_value(p) > 65535);
                }
                assert(!port_ok(s@));
            }
            return Err(ResolutionError::InvalidPort);
        }
        acc = next;
        i = i + 1;
    }
    proof {
        assert(s@.subrange(start as int, i as int) =~= t);
    }
    Ok(acc as u16)
}

/// The host and port extracted from the raw target, ready for name
/// resolution.
#[derive(Debug)]
pub struct Target {
    /// The hostname or IP literal, brackets stripped.
    pub host: Vec<u8>,
    /// The port, either embedded in the host string or the supplied default.
    pub port: u16,
}

/// Extract the intended host and port from a raw host string and a default
/// port: apply the disambiguation rules, then parse the chosen port
/// substring as an unsigned 16-bit integer.
pub fn extract_target(host: &Vec<u8>, default_port: &Vec<u8>) -> (r: Result<
    Target,
    ResolutionError,
>)
    ensures
        match r {
            Ok(t) => {
                &&& port_ok(port_part(host@, default_port@))
                &&& t.host@ == host_part(host@)
                &&& t.port == port_value(port_part(host@, default_port@))
            },
            Err(e) => {
                &&& e == ResolutionError::InvalidPort
                &&& !port_ok(port_part(host@, default_port@))
            },
        },
{
    let (h, p) = split_host_port(host, default_port);
    match parse_port(&p) {
        Ok(v) => Ok(Target { host: h, port: v }),
        Err(e) => Err(e),
    }
}

/// Does the preference accept a candidate of this family?
pub open spec fn admits(pref: IpFamilyPreference, fam: IpFamily) -> bool {
    match pref {
        IpFamilyPreference::IPv4Only => fam is V4,
        IpFamilyPreference::IPv6Only => fam is V6,
        IpFamilyPreference::Any => true,
    }
}

/// Index of the first candidate at position `i` or beyond that the
/// preference admits; the list's length when there is none.
pub open spec fn first_admitted_from(fams: Seq<IpFamily>, pref: IpFamilyPreference, i: int) -> int
    decreases fams.len() - i,
{
    if i >= fams.len() || i < 0 {
        fams.len() as int
    } else if admits(pref, fams[i]) {
        i
    } else {
        first_admitted_from(fams, pref, i + 1)
    }
}

/// Index of the first admitted candidate; the list's length when no
/// candidate is admitted.
pub open spec fn first_admitted(fams: Seq<IpFamily>, pref: IpFamilyPreference) -> int {
    first_admitted_from(fams, pref, 0)
}

/// The first admitted candidate is admitted, none before it (from `i`) is,
/// and it lies within the list exactly when some candidate is admitted.
pub proof fn lemma_first_admitted_props(fams: Seq<IpFamily>, pref: IpFamilyPreference, i: int)
    requires
        0 <= i <= fams.len(),
    ensures
        i <= first_admitted_from(fams, pref, i) <= fams.len(),
        first_admitted_from(fams, pref, i) < fams.len() ==> admits(
            pref,
            fams[first_admitted_from(fams, pref, i)],
        ),
        forall|j: int| i <= j < first_admitted_from(fams, pref, i) ==> !admits(pref, fams[j]),
        first_admitted_from(fams, pref, i) == fams.len() ==> forall|j: int|
            i <= j < fams.len() ==> !admits(pref, fams[j]),
    decreases fams.len() - i,
{
    if i < fams.len() && !admits(pref, fams[i]) {
        lemma_first_admitted_props(fams, pref, i + 1);
    }
}

/// Pick the first candidate whose family the preference admits, preserving
/// the resolver's native order. Returns its index, or `NoMatchingAddress`
/// when no candidate is admitted (in particular, when the list is empty).
pub fn select_candidate(families: &Vec<IpFamily>, pref: IpFamilyPreference) -> (r: Result<
    usize,
    ResolutionError,
>)
    ensures
        match r {
            Ok(i) => {
                &&& i == first_admitted(families@, pref)
                &&& i < families@.len()
                &&& admits(pref, families@[i as int])
                &&& forall|j: int| 0 <= j < i ==> !admits(pref, families@[j])
            },
            Err(e) => {
                &&& e == ResolutionError::NoMatchingAddress
                &&& first_admitted(families@, pref) == families@.len()
                &&& forall|j: int| 0 <= j < families@.len() ==> !admits(pref, families@[j])
            },
        },
{
    let n = families.len();
    let mut i: usize = 0;
    while i < n
        invariant
            n == families@.len(),
            i <= n,
            first_admitted(families@, pref) == first_admitted_from(families@, pref, i as int),
            forall|j: int| 0 <= j < i ==> !admits(pref, families@[j]),
        decreases n - i,
    {
        let fam = families[i];
        let skip = match pref {
            IpFamilyPreference::IPv4Only => fam == IpFamily::V6,
            IpFamilyPreference::IPv6Only => fam == IpFamily::V4,
            IpFamilyPreference::Any => false,
        };
        if !skip {
            return Ok(i);
        }
        i = i + 1;
    }
    Err(ResolutionError::NoMatchingAddress)
}

/// Splitting law: a host string with exactly one colon is split at that
/// colon, the suffix becomes the port substring, and the separately supplied
/// default port plays no part.
pub proof fn lemma_split_single_colon(host: Seq<u8>, d1: Seq<u8>, d2: Seq<u8>)
    requires
        colon_count(host) == 1,
    ensures
        host_part(host) == host.subrange(0, first_colon(host)),
        port_part(host, d1) == host.subrange(first_colon(host) + 1, host.len() as int),
        port_part(host, d1) == port_part(host, d2),
{
}

/// Splitting law: a bracketed host with a trailing port (it contains `]:`
/// and more than one colon) loses its brackets and yields the suffix after
/// its last colon as the port substring; the default port plays no part.
pub proof fn lemma_split_bracketed_with_port(host: Seq<u8>, d1: Seq<u8>, d2: Seq<u8>)
    requires
        colon_count(host) != 1,
        has_bracket_colon(host),
    ensures
        host_part(host) == host.subrange(1, last_colon(host) - 1),
        port_part(host, d1) == host.subrange(last_colon(host) + 1, host.len() as int),
        port_part(host, d1) == port_part(host, d2),
{
}

/// Splitting law: a bracketed host with no trailing port loses its brackets
/// and falls back to the supplied default port.
pub proof fn lemma_split_bracketed_no_port(host: Seq<u8>, d: Seq<u8>)
    requires
        colon_count(host) != 1,
        !has_bracket_colon(host),
        is_bracketed(host),
    ensures
        host_part(host) == host.subrange(1, host.len() - 1),
        port_part(host, d) == d,
{
}

/// Splitting law: a host string without any colon keeps the supplied default
/// port, and when it is not bracketed it is used whole as the host.
pub proof fn lemma_split_no_colon(host: Seq<u8>, d: Seq<u8>)
    requires
        colon_count(host) == 0,
    ensures
        port_part(host, d) == d,
        !is_bracketed(host) ==> host_part(host) == host,
{
    lemma_colon_count_zero(host, 0);
    assert(!has_bracket_colon(host));
}

/// Family-filter law: under `IPv4Only` a selected candidate is always IPv4;
/// a list holding any IPv4 candidate selects one, and a list of only IPv6
/// candidates selects none.
pub proof fn lemma_ipv4_only_filter(fams: Seq<IpFamily>)
    ensures
        first_admitted(fams, IpFamilyPreference::IPv4Only) < fams.len() ==> fams[first_admitted(
            fams,
            IpFamilyPreference::IPv4Only,
        )] is V4,
        (exists|i: int| 0 <= i < fams.len() && (#[trigger] fams[i]) is V4) ==> first_admitted(
            fams,
            IpFamilyPreference::IPv4Only,
        ) < fams.len(),
        (forall|i: int| 0 <= i < fams.len() ==> (#[trigger] fams[i]) is V6) ==> first_admitted(
            fams,
            IpFamilyPreference::IPv4Only,
        ) == fams.len(),
{
    lemma_first_admitted_props(fams, IpFamilyPreference::IPv4Only, 0);
}

} // verus!
