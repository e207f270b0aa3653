//! BGP community lists: parsing the textual `ASN:NN`, plain-number and
//! well-known-name forms, and rendering a list back to text.

use vstd::prelude::*;
use vstd::string::*;

verus! {

pub const COMMUNITY_INTERNET: u32 = 0x0;
pub const COMMUNITY_GSHUT: u32 = 0xFFFF0000;
pub const COMMUNITY_ACCEPT_OWN: u32 = 0xFFFF0001;
pub const COMMUNITY_FILTER_TRANSLATED_V4: u32 = 0xFFFF0002;
pub const COMMUNITY_FILTER_V4: u32 = 0xFFFF0003;
pub const COMMUNITY_FILTER_TRANSLATED_V6: u32 = 0xFFFF0004;
pub const COMMUNITY_FILTER_V6: u32 = 0xFFFF0005;
pub const COMMUNITY_LLGR_STALE: u32 = 0xFFFF0006;
pub const COMMUNITY_NO_LLGR: u32 = 0xFFFF0007;
pub const COMMUNITY_ACCEPT_OWN_NEXTHOP: u32 = 0xFFFF0008;
pub const COMMUNITY_BLACKHOLE: u32 = 0xFFFF029A;
pub const COMMUNITY_NO_EXPORT: u32 = 0xFFFFFF01;
pub const COMMUNITY_NO_ADVERTISE: u32 = 0xFFFFFF02;
pub const COMMUNITY_LOCAL_AS: u32 = 0xFFFFFF03;
pub const COMMUNITY_NO_PEER: u32 = 0xFFFFFF04;

/// A decimal digit.
pub open spec fn is_digit(c: char) -> bool {
    48 <= c as u32 <= 57
}

/// The numeric value of one digit.
pub open spec fn digit_val(c: char) -> int {
    c as u32 - 48
}

/// Every character is a digit.
pub open spec fn all_digits(s: Seq<char>) -> bool {
    forall|i: int| 0 <= i < s.len() ==> is_digit(#[trigger] s[i])
}

/// The number a digit string denotes.
pub open spec fn dec_val(s: Seq<char>) -> int
    decreases s.len(),
{
    if s.len() == 0 {
        0
    } else {
        dec_val(s.drop_last()) * 10 + digit_val(s.last())
    }
}

/// A number's digits denote a number at least zero.
proof fn lemma_dec_val_nonneg(s: Seq<char>)
    requires
        all_digits(s),
    ensures
        dec_val(s) >= 0,
    decreases s.len(),
{
    if s.len() > 0 {
        assert(all_digits(s.drop_last()));
        lemma_dec_val_nonneg(s.drop_last());
    }
}

/// A digit string's prefix denotes no more than the whole string.
proof fn lemma_dec_val_prefix(s: Seq<char>, k: int)
    requires
        all_digits(s),
        0 <= k <= s.len(),
    ensures
        dec_val(s.take(k)) <= dec_val(s),
    decreases s.len(),
{
    if k == s.len() {
        assert(s.take(k) =~= s);
    } else {
        assert(all_digits(s.drop_last()));
        lemma_dec_val_nonneg(s.drop_last());
        assert(s.drop_last().take(k) =~= s.take(k));
        lemma_dec_val_prefix(s.drop_last(), k);
    }
}

/// The digits after an optional leading plus sign.
pub open spec fn strip_plus(s: Seq<char>) -> Seq<char> {
    if s.len() > 0 && s[0] == '+' {
        s.skip(1)
    } else {
        s
    }
}

/// What parsing an unsigned 32-bit number from text yields: an optional
/// plus sign, then at least one digit, denoting a value that fits.
pub open spec fn spec_parse_u32(s: Seq<char>) -> Option<u32> {
    let d = strip_plus(s);
    if d.len() > 0 && all_digits(d) && dec_val(d) <= 0xFFFFFFFF {
        Some(dec_val(d) as u32)
    } else {
        None
    }
}

/// What parsing an unsigned 16-bit number from text yields.
pub open spec fn spec_parse_u16(s: Seq<char>) -> Option<u16> {
    let d = strip_plus(s);
    if d.len() > 0 && all_digits(d) && dec_val(d) <= 0xFFFF {
        Some(dec_val(d) as u16)
    } else {
        None
    }
}

/// Parse text as a number no larger than `limit`, or report why not.
/// Used under both integer widths.
#[verifier::loop_isolation(false)]
fn parse_bounded(s: &str, limit: u64) -> (r: Option<u64>)
    requires
        limit <= 0xFFFFFFFF,
    ensures
        (match r {
            Some(v) => {
                let d = strip_plus(s@);
                &&& d.len() > 0
                &&& all_digits(d)
                &&& dec_val(d) == v
                &&& v <= limit
            },
            None => {
                let d = strip_plus(s@);
                !(d.len() > 0 && all_digits(d) && dec_val(d) <= limit)
            },
        }),
{
    let n: usize = s.unicode_len();
    let mut i: usize = 0;
    if n > 0 && s.get_char(0) == '+' {
        i = 1;
    }
    let start: usize = i;
    let ghost d = strip_plus(s@);
    proof {
        assert(d =~= s@.subrange(start as int, n as int));
    }
    if i == n {
        return None;
    }
    let mut acc: u64 = 0;
    while i < n
        invariant
            start <= i <= n,
            all_digits(s@.subrange(start as int, i as int)),
            acc == dec_val(s@.subrange(start as int, i as int)),
            acc <= limit,
        decreases n - i,
    {
        let c: char = s.get_char(i);
        let cv: u32 = c as u32;
        if cv < 48 || cv > 57 {
            proof {
                assert(d[i - start] == s@[i as int]);
                assert(!is_digit(d[i - start]));
            }
            return None;
        }
        let dv: u64 = (cv - 48) as u64;
        acc = acc * 10 + dv;
        proof {
            let pre = s@.subrange(start as int, i as int);
            let cur = s@.subrange(start as int, i + 1);
            assert(cur.drop_last() =~= pre);
            assert(cur.last() == s@[i as int]);
        }
        if acc > limit {
            proof {
                if all_digits(d) {
                    assert(d.take(i + 1 - start) =~= s@.subrange(start as int, i + 1));
                    lemma_dec_val_prefix(d, i + 1 - start);
                }
            }
            return None;
        }
        i = i + 1;
    }
    proof {
        assert(s@.subrange(start as int, n as int) =~= d);
    }
    Some(acc)
}

/// Parse text as an unsigned 32-bit number, as the plain-number
/// community form requires.
pub fn parse_u32_str(s: &str) -> (r: Option<u32>)
    ensures
        r == spec_parse_u32(s@),
{
    match parse_bounded(s, 0xFFFFFFFF) {
        Some(v) => Some(v as u32),
        None => None,
    }
}

/// Parse text as an unsigned 16-bit number, as each half of the
/// `ASN:NN` community form requires.
pub fn parse_u16_str(s: &str) -> (r: Option<u16>)
    ensures
        r == spec_parse_u16(s@),
{
    match parse_bounded(s, 0xFFFF) {
        Some(v) => Some(v as u16),
        None => None,
    }
}

/// The pieces of a character sequence between occurrences of a
/// separator; an empty sequence has one empty piece, and separators at
/// either end contribute empty pieces, exactly as the standard
/// splitter behaves.
pub open spec fn spec_split(s: Seq<char>, sep: char) -> Seq<Seq<char>>
    decreases s.len(),
{
    if s.len() == 0 {
        seq![Seq::empty()]
    } else {
        let rest = spec_split(s.skip(1), sep);
        if s[0] == sep {
            seq![Seq::<char>::empty()] + rest
        } else {
            seq![seq![s[0]] + rest[0]] + rest.skip(1)
        }
    }
}

/// Splitting yields at least one piece.
proof fn lemma_split_nonempty(s: Seq<char>, sep: char)
    ensures
        spec_split(s, sep).len() >= 1,
    decreases s.len(),
{
    if s.len() > 0 {
        lemma_split_nonempty(s.skip(1), sep);
    }
}

/// The views of a vector of strings.
pub open spec fn strings_view(v: Seq<String>) -> Seq<Seq<char>> {
    v.map_values(|x: String| x@)
}

/// An unfinished token glued onto the front of the pieces still to be
/// found.
spec fn glue(prefix: Seq<char>, rest: Seq<Seq<char>>) -> Seq<Seq<char>> {
    seq![prefix + rest[0]] + rest.skip(1)
}

/// Split a string at every occurrence of a separator.
#[verifier::loop_isolation(false)]
fn split_char(s: &str, sep: char) -> (parts: Vec<String>)
    ensures
        strings_view(parts@) == spec_split(s@, sep),
{
    let n: usize = s.unicode_len();
    let mut parts: Vec<String> = Vec::new();
    let mut start: usize = 0;
    let mut i: usize = 0;
    proof {
        assert(s@.subrange(0, n as int) =~= s@);
        assert(strings_view(parts@) =~= Seq::<Seq<char>>::empty());
        lemma_split_nonempty(s@, sep);
        assert(glue(Seq::empty(), spec_split(s@, sep)) =~~= spec_split(s@, sep));
    }
    while i < n
        invariant
            start <= i <= n,
            spec_split(s@, sep) == strings_view(parts@) + glue(
                s@.subrange(start as int, i as int),
                spec_split(s@.subrange(i as int, n as int), sep),
            ),
        decreases n - i,
    {
        let c: char = s.get_char(i);
        let ghost rem = s@.subrange(i as int, n as int);
        let ghost remnext = s@.subrange(i + 1, n as int);
        proof {
            lemma_split_nonempty(remnext, sep);
            assert(rem[0] == s@[i as int]);
            assert(rem.skip(1) =~= remnext);
        }
        if c == sep {
            let tok: &str = s.substring_char(start, i);
            let ghost pre_parts = parts@;
            let ghost prefix = s@.subrange(start as int, i as int);
            parts.push(tok.to_owned());
            start = i + 1;
            proof {
                let sp = spec_split(remnext, sep);
                assert(spec_split(rem, sep) == seq![Seq::<char>::empty()] + sp);
                assert(glue(prefix, spec_split(rem, sep)) =~~= seq![prefix] + sp) by {
                    assert(prefix + (seq![Seq::<char>::empty()] + sp)[0] =~= prefix);
                    assert((seq![Seq::<char>::empty()] + sp).skip(1) =~~= sp);
                }
                assert(strings_view(parts@) =~= strings_view(pre_parts).push(prefix));
                assert(s@.subrange(i + 1, i + 1) =~= Seq::<char>::empty());
                assert(glue(Seq::<char>::empty(), sp) =~~= sp) by {
                    assert(Seq::<char>::empty() + sp[0] =~= sp[0]);
                }
                assert(strings_view(pre_parts) + (seq![prefix] + sp) =~~= strings_view(
                    pre_parts,
                ).push(prefix) + sp);
            }
        } else {
            proof {
                let prefix = s@.subrange(start as int, i as int);
                let prefix2 = s@.subrange(start as int, i + 1);
                let sp = spec_split(remnext, sep);
                assert(spec_split(rem, sep) == seq![seq![s@[i as int]] + sp[0]] + sp.skip(1));
                assert(glue(prefix, spec_split(rem, sep)) =~~= glue(prefix2, sp)) by {
                    assert(prefix + (seq![s@[i as int]] + sp[0]) =~= prefix2 + sp[0]);
                    assert((seq![seq![s@[i as int]] + sp[0]] + sp.skip(1)).skip(1) =~~= sp.skip(
                        1,
                    ));
                }
            }
        }
        i = i + 1;
    }
    let tok: &str = s.substring_char(start, n);
    let ghost pre_parts = parts@;
    parts.push(tok.to_owned());
    proof {
        let rem = s@.subrange(n as int, n as int);
        assert(rem =~= Seq::<char>::empty());
        assert(spec_split(rem, sep) == seq![Seq::<char>::empty()]);
        assert(glue(tok@, spec_split(rem, sep)) =~~= seq![tok@]) by {
            assert(tok@ + Seq::<char>::empty() =~= tok@);
            assert((seq![Seq::<char>::empty()]).skip(1) =~~= Seq::<Seq<char>>::empty());
        }
        assert(strings_view(parts@) =~= strings_view(pre_parts).push(tok@));
        assert(strings_view(pre_parts).push(tok@) =~~= strings_view(pre_parts) + seq![tok@]);
    }
    parts
}

/// The value a well-known community name denotes.
pub open spec fn spec_well_known_value(s: Seq<char>) -> Option<u32> {
    if s == "internet"@ {
        Some(COMMUNITY_INTERNET)
    } else if s == "graceful-shutdown"@ {
        Some(COMMUNITY_GSHUT)
    } else if s == "accept-own"@ {
        Some(COMMUNITY_ACCEPT_OWN)
    } else if s == "route-filter-translated-v4"@ {
        Some(COMMUNITY_FILTER_TRANSLATED_V4)
    } else if s == "route-filter-v4"@ {
        Some(COMMUNITY_FILTER_V4)
    } else if s == "route-filter-translated-v6"@ {
        Some(COMMUNITY_FILTER_TRANSLATED_V6)
    } else if s == "route-filter-v6"@ {
        Some(COMMUNITY_FILTER_V6)
    } else if s == "llgr-stale"@ {
        Some(COMMUNITY_LLGR_STALE)
    } else if s == "no-llgr"@ {
        Some(COMMUNITY_NO_LLGR)
    } else if s == "accept-own-nexthop"@ {
        Some(COMMUNITY_ACCEPT_OWN_NEXTHOP)
    } else if s == "blackhole"@ {
        Some(COMMUNITY_BLACKHOLE)
    } else if s == "no-export"@ {
        Some(COMMUNITY_NO_EXPORT)
    } else if s == "no-advertise"@ {
        Some(COMMUNITY_NO_ADVERTISE)
    } else if s == "local-AS"@ {
        Some(COMMUNITY_LOCAL_AS)
    } else if s == "no-peer"@ {
        Some(COMMUNITY_NO_PEER)
    } else {
        None
    }
}

/// The well-known name a value renders as.
pub open spec fn spec_well_known_name(v: u32) -> Option<Seq<char>> {
    if v == COMMUNITY_INTERNET {
        Some("internet"@)
    } else if v == COMMUNITY_GSHUT {
        Some("graceful-shutdown"@)
    } else if v == COMMUNITY_ACCEPT_OWN {
        Some("accept-own"@)
    } else if v == COMMUNITY_FILTER_TRANSLATED_V4 {
        Some("route-filter-translated-v4"@)
    } else if v == COMMUNITY_FILTER_V4 {
        Some("route-filter-v4"@)
    } else if v == COMMUNITY_FILTER_TRANSLATED_V6 {
        Some("route-filter-translated-v6"@)
    } else if v == COMMUNITY_FILTER_V6 {
        Some("route-filter-v6"@)
    } else if v == COMMUNITY_LLGR_STALE {
        Some("llgr-stale"@)
    } else if v == COMMUNITY_NO_LLGR {
        Some("no-llgr"@)
    } else if v == COMMUNITY_ACCEPT_OWN_NEXTHOP {
        Some("accept-own-nexthop"@)
    } else if v == COMMUNITY_BLACKHOLE {
        Some("blackhole"@)
    } else if v == COMMUNITY_NO_EXPORT {
        Some("no-export"@)
    } else if v == COMMUNITY_NO_ADVERTISE {
        Some("no-advertise"@)
    } else if v == COMMUNITY_LOCAL_AS {
        Some("local-AS"@)
    } else if v == COMMUNITY_NO_PEER {
        Some("no-peer"@)
    } else {
        None
    }
}

/// Character-for-character string equality.
#[verifier::loop_isolation(false)]
fn str_eq(a: &str, b: &str) -> (r: bool)
    ensures
        r == (a@ == b@),
{
    let n: usize = a.unicode_len();
    let m: usize = b.unicode_len();
    if n != m {
        return false;
    }
    let mut i: usize = 0;
    while i < n
        invariant
            i <= n,
            forall|j: int| 0 <= j < i ==> a@[j] == b@[j],
        decreases n - i,
    {
        if a.get_char(i) != b.get_char(i) {
            return false;
        }
        i = i + 1;
    }
    proof {
        assert(a@ =~= b@);
    }
    true
}

/// Look a token up among the well-known community names.
fn well_known_value(s: &str) -> (r: Option<u32>)
    ensures
        r == spec_well_known_value(s@),
{
    if str_eq(s, "internet") {
        Some(COMMUNITY_INTERNET)
    } else if str_eq(s, "graceful-shutdown") {
        Some(COMMUNITY_GSHUT)
    } else if str_eq(s, "accept-own") {
        Some(COMMUNITY_ACCEPT_OWN)
    } else if str_eq(s, "route-filter-translated-v4") {
        Some(COMMUNITY_FILTER_TRANSLATED_V4)
    } else if str_eq(s, "route-filter-v4") {
        Some(COMMUNITY_FILTER_V4)
    } else if str_eq(s, "route-filter-translated-v6") {
        Some(COMMUNITY_FILTER_TRANSLATED_V6)
    } else if str_eq(s, "route-filter-v6") {
        Some(COMMUNITY_FILTER_V6)
    } else if str_eq(s, "llgr-stale") {
        Some(COMMUNITY_LLGR_STALE)
    } else if str_eq(s, "no-llgr") {
        Some(COMMUNITY_NO_LLGR)
    } else if str_eq(s, "accept-own-nexthop") {
        Some(COMMUNITY_ACCEPT_OWN_NEXTHOP)
    } else if str_eq(s, "blackhole") {
        Some(COMMUNITY_BLACKHOLE)
    } else if str_eq(s, "no-export") {
        Some(COMMUNITY_NO_EXPORT)
    } else if str_eq(s, "no-advertise") {
        Some(COMMUNITY_NO_ADVERTISE)
    } else if str_eq(s, "local-AS") {
        Some(COMMUNITY_LOCAL_AS)
    } else if str_eq(s, "no-peer") {
        Some(COMMUNITY_NO_PEER)
    } else {
        None
    }
}

/// The well-known name of a value, if it has one.
fn well_known_name(v: u32) -> (r: Option<&'static str>)
    ensures
        (match r {
            Some(t) => spec_well_known_name(v) == Some(t@),
            None => spec_well_known_name(v) is None,
        }),
{
    if v == COMMUNITY_INTERNET {
        Some("internet")
    } else if v == COMMUNITY_GSHUT {
        Some("graceful-shutdown")
    } else if v == COMMUNITY_ACCEPT_OWN {
        Some("accept-own")
    } else if v == COMMUNITY_FILTER_TRANSLATED_V4 {
        Some("route-filter-translated-v4")
    } else if v == COMMUNITY_FILTER_V4 {
        Some("route-filter-v4")
    } else if v == COMMUNITY_FILTER_TRANSLATED_V6 {
        Some("route-filter-translated-v6")
    } else if v == COMMUNITY_FILTER_V6 {
        Some("route-filter-v6")
    } else if v == COMMUNITY_LLGR_STALE {
        Some("llgr-stale")
    } else if v == COMMUNITY_NO_LLGR {
        Some("no-llgr")
    } else if v == COMMUNITY_ACCEPT_OWN_NEXTHOP {
        Some("accept-own-nexthop")
    } else if v == COMMUNITY_BLACKHOLE {
        Some("blackhole")
    } else if v == COMMUNITY_NO_EXPORT {
        Some("no-export")
    } else if v == COMMUNITY_NO_ADVERTISE {
        Some("no-advertise")
    } else if v == COMMUNITY_LOCAL_AS {
        Some("local-AS")
    } else if v == COMMUNITY_NO_PEER {
        Some("no-peer")
    } else {
        None
    }
}

/// What parsing one community token yields: two colon-separated 16-bit
/// halves packed high and low, a single 32-bit number, or nothing.
pub open spec fn spec_parse_community(s: Seq<char>) -> Option<u32> {
    let parts = spec_split(s, ':');
    if parts.len() == 2 {
        match (spec_parse_u16(parts[0]), spec_parse_u16(parts[1])) {
            (Some(h), Some(l)) => Some(((h as int) * 0x10000 + (l as int)) as u32),
            _ => None,
        }
    } else if parts.len() == 1 {
        spec_parse_u32(parts[0])
    } else {
        None
    }
}

/// What parsing one whitespace-separated token yields: its well-known
/// value if the token is a well-known name, else its community form.
pub open spec fn spec_parse_token(t: Seq<char>) -> Option<u32> {
    match spec_well_known_value(t) {
        Some(c) => Some(c),
        None => spec_parse_community(t),
    }
}

/// What parsing a whole community list yields: every token must parse,
/// in order; one failing token fails the list.
pub open spec fn spec_parse_tokens(toks: Seq<Seq<char>>) -> Option<Seq<u32>>
    decreases toks.len(),
{
    if toks.len() == 0 {
        Some(Seq::empty())
    } else {
        match spec_parse_token(toks[0]) {
            None => None,
            Some(c) => match spec_parse_tokens(toks.skip(1)) {
                None => None,
                Some(rest) => Some(seq![c] + rest),
            },
        }
    }
}

/// What parsing a community list from text yields.
pub open spec fn spec_from_str(s: Seq<char>) -> Option<Seq<u32>> {
    spec_parse_tokens(spec_split(s, ' '))
}

/// An ordered list of 32-bit community values.
#[derive(Debug, PartialEq, Eq, Clone)]
pub struct Communities(Vec<u32>);

impl View for Communities {
    type V = Seq<u32>;

    closed spec fn view(&self) -> Seq<u32> {
        self.0@
    }
}

impl Communities {
    /// An empty community list.
    pub fn new() -> (r: Self)
        ensures
            r@ == Seq::<u32>::empty(),
    {
        let r = Communities(Vec::new());
        proof {
            assert(r@ =~= Seq::<u32>::empty());
        }
        r
    }

    /// Append one value; order is kept.
    pub fn push(&mut self, value: u32)
        ensures
            final(self)@ == old(self)@.push(value),
    {
        self.0.push(value);
    }

    /// How many values the list holds.
    pub fn len(&self) -> (n: usize)
        ensures
            n == self@.len(),
    {
        self.0.len()
    }

    /// The value at one position.
    pub fn get(&self, i: usize) -> (v: u32)
        requires
            i < self@.len(),
        ensures
            v == self@[i as int],
    {
        self.0[i]
    }

    /// Whether the list holds a value.
    #[verifier::loop_isolation(false)]
    pub fn contains(&self, value: &u32) -> (r: bool)
        ensures
            r == self@.contains(*value),
    {
        let mut i: usize = 0;
        while i < self.0.len()
            invariant
                i <= self@.len(),
                forall|j: int| 0 <= j < i ==> self@[j] != *value,
            decreases self@.len() - i,
        {
            if self.0[i] == *value {
                return true;
            }
            i = i + 1;
        }
        false
    }

    /// Parse one token in `ASN:NN` or plain-number form.
    pub fn parse_community(s: &str) -> (r: Option<u32>)
        ensures
            r == spec_parse_community(s@),
    {
        let parts: Vec<String> = split_char(s, ':');
        if parts.len() == 2 {
            proof {
                assert(strings_view(parts@)[0] == parts@[0]@);
                assert(strings_view(parts@)[1] == parts@[1]@);
            }
            let h: Option<u16> = parse_u16_str(parts[0].as_str());
            let l: Option<u16> = parse_u16_str(parts[1].as_str());
            match (h, l) {
                (Some(hv), Some(lv)) => Some((hv as u32) * 0x10000 + (lv as u32)),
                _ => None,
            }
        } else if parts.len() == 1 {
            proof {
                assert(strings_view(parts@)[0] == parts@[0]@);
            }
            parse_u32_str(parts[0].as_str())
        } else {
            None
        }
    }

    /// Parse a whole space-separated community list; any token that is
    /// neither a well-known name nor a community number fails the
    /// whole list.
    #[verifier::loop_isolation(false)]
    pub fn from_str(s: &str) -> (r: Option<Communities>)
        ensures
            (match spec_from_str(s@) {
                Some(vs) => r matches Some(c) && c@ == vs,
                None => r is None,
            }),
    {
        let toks: Vec<String> = split_char(s, ' ');
        let ghost all = strings_view(toks@);
        let mut coms = Communities::new();
        let mut i: usize = 0;
        proof {
            assert(all.skip(0) =~~= all);
            match spec_parse_tokens(all) {
                Some(rr) => {
                    assert(Seq::<u32>::empty() + rr =~= rr);
                },
                None => {},
            }
        }
        while i < toks.len()
            invariant
                i <= toks@.len(),
                all == strings_view(toks@),
                all.len() == toks@.len(),
                (match spec_parse_tokens(all.skip(i as int)) {
                    Some(rest) => spec_parse_tokens(all) == Some(coms@ + rest),
                    None => spec_parse_tokens(all) is None,
                }),
            decreases toks@.len() - i,
        {
            let ghost pre = coms@;
            let tok: &str = toks[i].as_str();
            proof {
                assert(all[i as int] == toks@[i as int]@);
                assert(all.skip(i as int)[0] == all[i as int]);
                assert(all.skip(i as int).skip(1) =~~= all.skip(i + 1));
            }
            let v: u32;
            match well_known_value(tok) {
                Some(c) => {
                    v = c;
                },
                None => {
                    match Communities::parse_community(tok) {
                        Some(c) => {
                            v = c;
                        },
                        None => {
                            return None;
                        },
                    }
                },
            }
            proof {
                match spec_parse_tokens(all.skip(i + 1)) {
                    Some(rest) => {
                        assert(pre + (seq![v] + rest) =~= pre.push(v) + rest);
                    },
                    None => {},
                }
            }
            coms.push(v);
            i = i + 1;
        }
        proof {
            assert(all.skip(all.len() as int) =~~= Seq::<Seq<char>>::empty());
            assert(coms@ + Seq::<u32>::empty() =~= coms@);
        }
        Some(coms)
    }
}

/// The character of one decimal digit.
pub open spec fn digit_char(d: nat) -> char {
    if d == 0 {
        '0'
    } else if d == 1 {
        '1'
    } else if d == 2 {
        '2'
    } else if d == 3 {
        '3'
    } else if d == 4 {
        '4'
    } else if d == 5 {
        '5'
    } else if d == 6 {
        '6'
    } else if d == 7 {
        '7'
    } else if d == 8 {
        '8'
    } else {
        '9'
    }
}

/// The decimal digits of a number, most significant first, with no
/// leading zeroes and a bare zero for zero.
pub open spec fn spec_dec_str(n: nat) -> Seq<char>
    decreases n,
{
    if n < 10 {
        seq![digit_char(n)]
    } else {
        spec_dec_str(n / 10).push(digit_char(n % 10))
    }
}

/// The one-character text of a decimal digit.
fn digit_str(d: u32) -> (t: &'static str)
    requires
        d < 10,
    ensures
        t@ == seq![digit_char(d as nat)],
{
    if d == 0 {
        proof {
            reveal_strlit("0");
            assert("0"@ =~= seq!['0']);
        }
        "0"
    } else if d == 1 {
        proof {
            reveal_strlit("1");
            assert("1"@ =~= seq!['1']);
        }
        "1"
    } else if d == 2 {
        proof {
            reveal_strlit("2");
            assert("2"@ =~= seq!['2']);
        }
        "2"
    } else if d == 3 {
        proof {
            reveal_strlit("3");
            assert("3"@ =~= seq!['3']);
        }
        "3"
    } else if d == 4 {
        proof {
            reveal_strlit("4");
            assert("4"@ =~= seq!['4']);
        }
        "4"
    } else if d == 5 {
        proof {
            reveal_strlit("5");
            assert("5"@ =~= seq!['5']);
        }
        "5"
    } else if d == 6 {
        proof {
            reveal_strlit("6");
            assert("6"@ =~= seq!['6']);
        }
        "6"
    } else if d == 7 {
        proof {
            reveal_strlit("7");
            assert("7"@ =~= seq!['7']);
        }
        "7"
    } else if d == 8 {
        proof {
            reveal_strlit("8");
            assert("8"@ =~= seq!['8']);
        }
        "8"
    } else {
        proof {
            reveal_strlit("9");
            assert("9"@ =~= seq!['9']);
        }
        "9"
    }
}

/// Render a number in decimal, most significant digit first.
fn u32_to_string(v: u32) -> (s: String)
    ensures
        s@ == spec_dec_str(v as nat),
    decreases v,
{
    if v < 10 {
        let t: &str = digit_str(v);
        t.to_owned()
    } else {
        let mut s: String = u32_to_string(v / 10);
        let t: &str = digit_str(v % 10);
        s.append(t);
        proof {
            assert(s@ =~= spec_dec_str((v / 10) as nat).push(digit_char((v % 10) as nat)));
        }
        s
    }
}

/// How one community value renders: its well-known name, or its two
/// 16-bit halves as `high:low`.
pub open spec fn spec_community_text(v: u32) -> Seq<char> {
    match spec_well_known_name(v) {
        Some(name) => name,
        None => spec_dec_str((v / 0x10000) as nat) + seq![':'] + spec_dec_str((v % 0x10000) as nat),
    }
}

/// How a whole community list renders: each value's text, separated by
/// single spaces, empty for an empty list.
pub open spec fn spec_communities_text(s: Seq<u32>) -> Seq<char>
    decreases s.len(),
{
    if s.len() == 0 {
        Seq::empty()
    } else if s.len() == 1 {
        spec_community_text(s[0])
    } else {
        spec_communities_text(s.drop_last()) + seq![' '] + spec_community_text(s.last())
    }
}

/// Render one community value.
fn community_text(v: u32) -> (out: String)
    ensures
        out@ == spec_community_text(v),
{
    match well_known_name(v) {
        Some(name) => name.to_owned(),
        None => {
            let mut t: String = u32_to_string(v / 0x10000);
            t.append(":");
            let low: String = u32_to_string(v % 0x10000);
            t.append(low.as_str());
            proof {
                reveal_strlit(":");
                assert(":"@ =~= seq![':']);
            }
            t
        },
    }
}

impl Communities {
    /// Render the whole list, each value's well-known name or
    /// `high:low` form, space separated.
    #[verifier::loop_isolation(false)]
    pub fn to_string(&self) -> (out: String)
        ensures
            out@ == spec_communities_text(self@),
    {
        let mut out: String = String::new();
        let mut i: usize = 0;
        proof {
            assert(self@.take(0) =~= Seq::<u32>::empty());
        }
        while i < self.0.len()
            invariant
                i <= self@.len(),
                out@ == spec_communities_text(self@.take(i as int)),
            decreases self@.len() - i,
        {
            let ghost pre = out@;
            if i > 0 {
                out.append(" ");
                proof {
                    reveal_strlit(" ");
                    assert(" "@ =~= seq![' ']);
                }
            }
            let t: String = community_text(self.0[i]);
            out.append(t.as_str());
            proof {
                let cur = self@.take(i + 1);
                assert(cur.drop_last() =~= self@.take(i as int));
                assert(cur.last() == self@[i as int]);
                if i == 0 {
                    assert(out@ =~= spec_communities_text(cur));
                } else {
                    assert(out@ =~= spec_communities_text(cur));
                }
            }
            i = i + 1;
        }
        proof {
            assert(self@.take(self@.len() as int) =~= self@);
        }
        out
    }
}

} // verus!
