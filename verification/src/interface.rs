//! Interface records and the two tool-dialect parsers that produce them:
//! the modern `ip`-utility dump and the legacy `ifconfig` listing. Both are
//! deterministic text-to-record converters that fail fast: a block missing
//! any required field fails the whole parse.

use vstd::prelude::*;

use crate::ip::{
    mask_prefix_length, lemma_bit_count_bound, parse_cidr_text, parse_ip_addr, parse_ip_addr_text,
    parse_ipv4_text, CIDR, IpAddress, V4Addr,
};
use crate::mac::{parse_mac_text, MAC};
use crate::text::{
    digit_char, digit_cls, digit_dot_char, digit_dot_cls, digit_dot_run_end, digit_run_end,
    is_digit_char, is_space_char, is_word_char, is_word_colon_char, lemma_run_end, lit_at,
    matches_at, run_end, space_char, space_cls, space_run_end, split_lit_from,
    split_lit_nonempty, word_char, word_cls, word_colon_char, word_colon_cls,
    word_colon_run_end, word_dash_cls, word_dash_run_end, word_run_end,
};

verus! {

// ---------------------------------------------------------------------------
// Records
// ---------------------------------------------------------------------------

/// One discovered network interface, all four fields present and well
/// formed; partial records never exist.
#[derive(Debug, Clone, PartialEq)]
pub struct Interface {
    pub name: String,
    pub mac: MAC,
    pub cidr: CIDR,
    pub status: String,
}

/// The mathematical shape of an interface record.
pub struct InterfaceSpec {
    pub name: Seq<char>,
    pub mac: MAC,
    pub cidr: CIDR,
    pub status: Seq<char>,
}

impl View for Interface {
    type V = InterfaceSpec;

    open spec fn view(&self) -> InterfaceSpec {
        InterfaceSpec { name: self.name@, mac: self.mac, cidr: self.cidr, status: self.status@ }
    }
}

impl DeepView for Interface {
    type V = InterfaceSpec;

    open spec fn deep_view(&self) -> InterfaceSpec {
        self.view()
    }
}

impl Interface {
    pub fn new(name: String, mac: MAC, cidr: CIDR, status: String) -> (r: Interface)
        ensures
            r@ == (InterfaceSpec { name: name@, mac, cidr, status: status@ }),
    {
        Interface { name, mac, cidr, status }
    }
}

/// Which required field a parse failure is about.
#[derive(Debug, Clone, Copy, PartialEq, Eq, Structural)]
pub enum ParseReason {
    MissingName,
    MissingState,
    MissingStatus,
    MissingMac,
    InvalidMac,
    MissingAddress,
    InvalidAddress,
    MissingMask,
    InvalidMask,
}

/// A required field was missing or malformed; carries the offending text.
#[derive(Debug, Clone, PartialEq)]
pub struct ParseFailure {
    pub reason: ParseReason,
    pub offending_text: String,
}

/// The mathematical shape of a parse failure.
pub struct ParseFailureSpec {
    pub reason: ParseReason,
    pub offending_text: Seq<char>,
}

impl View for ParseFailure {
    type V = ParseFailureSpec;

    open spec fn view(&self) -> ParseFailureSpec {
        ParseFailureSpec { reason: self.reason, offending_text: self.offending_text@ }
    }
}

impl DeepView for ParseFailure {
    type V = ParseFailureSpec;

    open spec fn deep_view(&self) -> ParseFailureSpec {
        self.view()
    }
}

pub open spec fn failure(reason: ParseReason, text: Seq<char>) -> ParseFailureSpec {
    ParseFailureSpec { reason, offending_text: text }
}

/// The outcome of a parser, viewed mathematically.
pub open spec fn parse_outcome(r: Result<Vec<Interface>, ParseFailure>) -> Result<
    Seq<InterfaceSpec>,
    ParseFailureSpec,
> {
    match r {
        Ok(v) => Ok(v.deep_view()),
        Err(e) => Err(e@),
    }
}

// ---------------------------------------------------------------------------
// Scanning for the first position where a pattern matches
// ---------------------------------------------------------------------------

/// The first capture that `m` yields at any position at or after `j`.
pub open spec fn scan_first(
    s: Seq<char>,
    j: int,
    m: spec_fn(Seq<char>, int) -> Option<(int, int)>,
) -> Option<(int, int)>
    decreases s.len() - j
    when 0 <= j <= s.len()
{
    match m(s, j) {
        Some(r) => Some(r),
        None => if j >= s.len() {
            None
        } else {
            scan_first(s, j + 1, m)
        },
    }
}

pub proof fn lemma_scan_first_witness(
    s: Seq<char>,
    j: int,
    m: spec_fn(Seq<char>, int) -> Option<(int, int)>,
)
    requires
        0 <= j <= s.len(),
        scan_first(s, j, m) is Some,
    ensures
        exists|k: int| j <= k <= s.len() && #[trigger] m(s, k) == scan_first(s, j, m),
    decreases s.len() - j,
{
    if m(s, j) is Some {
        assert(m(s, j) == scan_first(s, j, m));
    } else {
        lemma_scan_first_witness(s, j + 1, m);
    }
}

/// The exec capture agrees with the spec capture.
pub open spec fn capture_eq(r: Option<(usize, usize)>, m: Option<(int, int)>) -> bool {
    match (r, m) {
        (Some((a, b)), Some((c, d))) => a as int == c && b as int == d,
        (None, None) => true,
        _ => false,
    }
}

// ---------------------------------------------------------------------------
// Field matchers, shared shapes
// ---------------------------------------------------------------------------

/// Marker text, one whitespace, then a non-empty run of `cls`: the captured
/// range is the run.
pub open spec fn match_marker_run(
    s: Seq<char>,
    j: int,
    marker: Seq<char>,
    cls: spec_fn(char) -> bool,
) -> Option<(int, int)> {
    let p = j + marker.len();
    if matches_at(s, j, marker) && p < s.len() && is_space_char(s[p]) && p + 1 < s.len() && cls(
        s[p + 1],
    ) {
        Some((p + 1, run_end(s, p + 1, cls)))
    } else {
        None
    }
}

/// Marker, one whitespace, a non-empty run of `cls`, a slash, then digits:
/// the captured range spans address and prefix together.
pub open spec fn match_marker_cidr(
    s: Seq<char>,
    j: int,
    marker: Seq<char>,
    cls: spec_fn(char) -> bool,
) -> Option<(int, int)> {
    let p = j + marker.len();
    if matches_at(s, j, marker) && p < s.len() && is_space_char(s[p]) && p + 1 < s.len() && cls(
        s[p + 1],
    ) {
        let e1 = run_end(s, p + 1, cls);
        if e1 < s.len() && s[e1] == '/' && e1 + 1 < s.len() && is_digit_char(s[e1 + 1]) {
            Some((p + 1, run_end(s, e1 + 1, digit_cls())))
        } else {
            None
        }
    } else {
        None
    }
}

/// The operational-state token of the modern dump: `state`, one whitespace,
/// then a word.
pub open spec fn state_matcher() -> spec_fn(Seq<char>, int) -> Option<(int, int)> {
    |s: Seq<char>, j: int| match_marker_run(s, j, "state"@, word_cls())
}

/// A link-type marker line of the modern dump: a line starting with
/// whitespace, `word/word`, one whitespace, then the hardware-address token.
pub open spec fn link_line_matcher() -> spec_fn(Seq<char>, int) -> Option<(int, int)> {
    |s: Seq<char>, j: int|
        {
            if 0 <= j < s.len() && (j == 0 || s[j - 1] == '\n') && is_space_char(s[j]) {
                let e0 = run_end(s, j, space_cls());
                if e0 < s.len() && is_word_char(s[e0]) {
                    let e1 = run_end(s, e0, word_cls());
                    if e1 < s.len() && s[e1] == '/' && e1 + 1 < s.len() && is_word_char(
                        s[e1 + 1],
                    ) {
                        let e2 = run_end(s, e1 + 1, word_cls());
                        if e2 < s.len() && is_space_char(s[e2]) && e2 + 1 < s.len()
                            && is_word_colon_char(s[e2 + 1]) {
                            Some((e2 + 1, run_end(s, e2 + 1, word_colon_cls())))
                        } else {
                            None
                        }
                    } else {
                        None
                    }
                } else {
                    None
                }
            } else {
                None
            }
        }
}

/// The address-with-prefix of the modern dump: an `inet` dotted-decimal or
/// an `inet6` colon-grouped pair, whichever form matches at the position.
pub open spec fn cidr_matcher() -> spec_fn(Seq<char>, int) -> Option<(int, int)> {
    |s: Seq<char>, j: int|
        {
            if match_marker_cidr(s, j, "inet"@, digit_dot_cls()) is Some {
                match_marker_cidr(s, j, "inet"@, digit_dot_cls())
            } else {
                match_marker_cidr(s, j, "inet6"@, word_colon_cls())
            }
        }
}

/// The first bracketed flag of the legacy listing: `<`, a word, `,`.
pub open spec fn status_matcher() -> spec_fn(Seq<char>, int) -> Option<(int, int)> {
    |s: Seq<char>, j: int|
        {
            if 0 <= j && j + 1 < s.len() && s[j] == '<' && is_word_char(s[j + 1]) {
                let e = run_end(s, j + 1, word_cls());
                if e < s.len() && s[e] == ',' {
                    Some((j + 1, e))
                } else {
                    None
                }
            } else {
                None
            }
        }
}

/// The hardware-address token of the legacy listing: after an `ether`
/// marker.
pub open spec fn ether_matcher() -> spec_fn(Seq<char>, int) -> Option<(int, int)> {
    |s: Seq<char>, j: int| match_marker_run(s, j, "ether"@, word_colon_cls())
}

/// The address of the legacy listing: `inet` dotted-decimal or `inet6`
/// colon-grouped, without a prefix.
pub open spec fn ifc_ip_matcher() -> spec_fn(Seq<char>, int) -> Option<(int, int)> {
    |s: Seq<char>, j: int|
        {
            if match_marker_run(s, j, "inet"@, digit_dot_cls()) is Some {
                match_marker_run(s, j, "inet"@, digit_dot_cls())
            } else {
                match_marker_run(s, j, "inet6"@, word_colon_cls())
            }
        }
}

/// The dotted-decimal mask of the legacy listing: after a `netmask` marker.
pub open spec fn netmask_matcher() -> spec_fn(Seq<char>, int) -> Option<(int, int)> {
    |s: Seq<char>, j: int| match_marker_run(s, j, "netmask"@, digit_dot_cls())
}

/// A block marker of the modern dump: a line starting with digits, then
/// `: `. The captured range is the whole marker.
pub open spec fn block_marker_matcher() -> spec_fn(Seq<char>, int) -> Option<(int, int)> {
    |s: Seq<char>, j: int|
        {
            if 0 <= j < s.len() && (j == 0 || s[j - 1] == '\n') && is_digit_char(s[j]) {
                let e = run_end(s, j, digit_cls());
                if e + 1 < s.len() && s[e] == ':' && s[e + 1] == ' ' {
                    Some((j, e + 2))
                } else {
                    None
                }
            } else {
                None
            }
        }
}

// ---------------------------------------------------------------------------
// Exec matchers and scanners
// ---------------------------------------------------------------------------

fn try_marker_word(s: &str, j: usize, marker: &str, mlen: usize) -> (r: Option<(usize, usize)>)
    requires
        j <= s@.len(),
        mlen == marker@.len(),
    ensures
        capture_eq(r, match_marker_run(s@, j as int, marker@, word_cls())),
        r matches Some((a, b)) ==> j < a <= b <= s@.len(),
{
    let n = s.unicode_len();
    if !lit_at(s, j, marker) {
        return None;
    }
    let p = j + mlen;
    if p < n && space_char(s.get_char(p)) && p + 1 < n && word_char(s.get_char(p + 1)) {
        let e = word_run_end(s, p + 1);
        Some((p + 1, e))
    } else {
        None
    }
}

fn try_marker_word_colon(s: &str, j: usize, marker: &str, mlen: usize) -> (r: Option<
    (usize, usize),
>)
    requires
        j <= s@.len(),
        mlen == marker@.len(),
    ensures
        capture_eq(r, match_marker_run(s@, j as int, marker@, word_colon_cls())),
        r matches Some((a, b)) ==> j < a <= b <= s@.len(),
{
    let n = s.unicode_len();
    if !lit_at(s, j, marker) {
        return None;
    }
    let p = j + mlen;
    if p < n && space_char(s.get_char(p)) && p + 1 < n && word_colon_char(s.get_char(p + 1)) {
        let e = word_colon_run_end(s, p + 1);
        Some((p + 1, e))
    } else {
        None
    }
}

fn try_marker_digit_dot(s: &str, j: usize, marker: &str, mlen: usize) -> (r: Option<
    (usize, usize),
>)
    requires
        j <= s@.len(),
        mlen == marker@.len(),
    ensures
        capture_eq(r, match_marker_run(s@, j as int, marker@, digit_dot_cls())),
        r matches Some((a, b)) ==> j < a <= b <= s@.len(),
{
    let n = s.unicode_len();
    if !lit_at(s, j, marker) {
        return None;
    }
    let p = j + mlen;
    if p < n && space_char(s.get_char(p)) && p + 1 < n && digit_dot_char(s.get_char(p + 1)) {
        let e = digit_dot_run_end(s, p + 1);
        Some((p + 1, e))
    } else {
        None
    }
}

fn try_marker_cidr_digit_dot(s: &str, j: usize, marker: &str, mlen: usize) -> (r: Option<
    (usize, usize),
>)
    requires
        j <= s@.len(),
        mlen == marker@.len(),
    ensures
        capture_eq(r, match_marker_cidr(s@, j as int, marker@, digit_dot_cls())),
        r matches Some((a, b)) ==> j < a <= b <= s@.len(),
{
    let n = s.unicode_len();
    if !lit_at(s, j, marker) {
        return None;
    }
    let p = j + mlen;
    if p < n && space_char(s.get_char(p)) && p + 1 < n && digit_dot_char(s.get_char(p + 1)) {
        let e1 = digit_dot_run_end(s, p + 1);
        if e1 < n && s.get_char(e1) == '/' && e1 + 1 < n && digit_char(s.get_char(e1 + 1)) {
            let e2 = digit_run_end(s, e1 + 1);
            Some((p + 1, e2))
        } else {
            None
        }
    } else {
        None
    }
}

fn try_marker_cidr_word_colon(s: &str, j: usize, marker: &str, mlen: usize) -> (r: Option<
    (usize, usize),
>)
    requires
        j <= s@.len(),
        mlen == marker@.len(),
    ensures
        capture_eq(r, match_marker_cidr(s@, j as int, marker@, word_colon_cls())),
        r matches Some((a, b)) ==> j < a <= b <= s@.len(),
{
    let n = s.unicode_len();
    if !lit_at(s, j, marker) {
        return None;
    }
    let p = j + mlen;
    if p < n && space_char(s.get_char(p)) && p + 1 < n && word_colon_char(s.get_char(p + 1)) {
        let e1 = word_colon_run_end(s, p + 1);
        if e1 < n && s.get_char(e1) == '/' && e1 + 1 < n && digit_char(s.get_char(e1 + 1)) {
            let e2 = digit_run_end(s, e1 + 1);
            Some((p + 1, e2))
        } else {
            None
        }
    } else {
        None
    }
}

fn try_state(s: &str, j: usize) -> (r: Option<(usize, usize)>)
    requires
        j <= s@.len(),
    ensures
        capture_eq(r, state_matcher()(s@, j as int)),
        r matches Some((a, b)) ==> j < a <= b <= s@.len(),
{
    proof {
        reveal_strlit("state");
    }
    try_marker_word(s, j, "state", 5)
}

fn scan_state(s: &str, j: usize) -> (r: Option<(usize, usize)>)
    requires
        j <= s@.len(),
    ensures
        capture_eq(r, scan_first(s@, j as int, state_matcher())),
        r matches Some((a, b)) ==> a <= b <= s@.len(),
    decreases s@.len() - j,
{
    match try_state(s, j) {
        Some(c) => Some(c),
        None => {
            if j >= s.unicode_len() {
                None
            } else {
                scan_state(s, j + 1)
            }
        },
    }
}

fn try_link_line(s: &str, j: usize) -> (r: Option<(usize, usize)>)
    requires
        j <= s@.len(),
    ensures
        capture_eq(r, link_line_matcher()(s@, j as int)),
        r matches Some((a, b)) ==> a <= b <= s@.len(),
{
    let n = s.unicode_len();
    if !(j < n && (j == 0 || s.get_char(j - 1) == '\n') && space_char(s.get_char(j))) {
        return None;
    }
    let e0 = space_run_end(s, j);
    if !(e0 < n && word_char(s.get_char(e0))) {
        return None;
    }
    let e1 = word_run_end(s, e0);
    if !(e1 < n && s.get_char(e1) == '/' && e1 + 1 < n && word_char(s.get_char(e1 + 1))) {
        return None;
    }
    let e2 = word_run_end(s, e1 + 1);
    if !(e2 < n && space_char(s.get_char(e2)) && e2 + 1 < n && word_colon_char(
        s.get_char(e2 + 1),
    )) {
        return None;
    }
    let e3 = word_colon_run_end(s, e2 + 1);
    Some((e2 + 1, e3))
}

fn scan_link_line(s: &str, j: usize) -> (r: Option<(usize, usize)>)
    requires
        j <= s@.len(),
    ensures
        capture_eq(r, scan_first(s@, j as int, link_line_matcher())),
        r matches Some((a, b)) ==> a <= b <= s@.len(),
    decreases s@.len() - j,
{
    match try_link_line(s, j) {
        Some(c) => Some(c),
        None => {
            if j >= s.unicode_len() {
                None
            } else {
                scan_link_line(s, j + 1)
            }
        },
    }
}

fn try_cidr(s: &str, j: usize) -> (r: Option<(usize, usize)>)
    requires
        j <= s@.len(),
    ensures
        capture_eq(r, cidr_matcher()(s@, j as int)),
        r matches Some((a, b)) ==> a <= b <= s@.len(),
{
    proof {
        reveal_strlit("inet");
        reveal_strlit("inet6");
    }
    match try_marker_cidr_digit_dot(s, j, "inet", 4) {
        Some(c) => Some(c),
        None => try_marker_cidr_word_colon(s, j, "inet6", 5),
    }
}

fn scan_cidr(s: &str, j: usize) -> (r: Option<(usize, usize)>)
    requires
        j <= s@.len(),
    ensures
        capture_eq(r, scan_first(s@, j as int, cidr_matcher())),
        r matches Some((a, b)) ==> a <= b <= s@.len(),
    decreases s@.len() - j,
{
    match try_cidr(s, j) {
        Some(c) => Some(c),
        None => {
            if j >= s.unicode_len() {
                None
            } else {
                scan_cidr(s, j + 1)
            }
        },
    }
}

fn try_status(s: &str, j: usize) -> (r: Option<(usize, usize)>)
    requires
        j <= s@.len(),
    ensures
        capture_eq(r, status_matcher()(s@, j as int)),
        r matches Some((a, b)) ==> a <= b <= s@.len(),
{
    let n = s.unicode_len();
    if !(j < n && s.get_char(j) == '<' && j + 1 < n && word_char(s.get_char(j + 1))) {
        return None;
    }
    let e = word_run_end(s, j + 1);
    if e < n && s.get_char(e) == ',' {
        Some((j + 1, e))
    } else {
        None
    }
}

fn scan_status(s: &str, j: usize) -> (r: Option<(usize, usize)>)
    requires
        j <= s@.len(),
    ensures
        capture_eq(r, scan_first(s@, j as int, status_matcher())),
        r matches Some((a, b)) ==> a <= b <= s@.len(),
    decreases s@.len() - j,
{
    match try_status(s, j) {
        Some(c) => Some(c),
        None => {
            if j >= s.unicode_len() {
                None
            } else {
                scan_status(s, j + 1)
            }
        },
    }
}

fn try_ether(s: &str, j: usize) -> (r: Option<(usize, usize)>)
    requires
        j <= s@.len(),
    ensures
        capture_eq(r, ether_matcher()(s@, j as int)),
        r matches Some((a, b)) ==> a <= b <= s@.len(),
{
    proof {
        reveal_strlit("ether");
    }
    try_marker_word_colon(s, j, "ether", 5)
}

fn scan_ether(s: &str, j: usize) -> (r: Option<(usize, usize)>)
    requires
        j <= s@.len(),
    ensures
        capture_eq(r, scan_first(s@, j as int, ether_matcher())),
        r matches Some((a, b)) ==> a <= b <= s@.len(),
    decreases s@.len() - j,
{
    match try_ether(s, j) {
        Some(c) => Some(c),
        None => {
            if j >= s.unicode_len() {
                None
            } else {
                scan_ether(s, j + 1)
            }
        },
    }
}

fn try_ifc_ip(s: &str, j: usize) -> (r: Option<(usize, usize)>)
    requires
        j <= s@.len(),
    ensures
        capture_eq(r, ifc_ip_matcher()(s@, j as int)),
        r matches Some((a, b)) ==> a <= b <= s@.len(),
{
    proof {
        reveal_strlit("inet");
        reveal_strlit("inet6");
    }
    match try_marker_digit_dot(s, j, "inet", 4) {
        Some(c) => Some(c),
        None => try_marker_word_colon(s, j, "inet6", 5),
    }
}

fn scan_ifc_ip(s: &str, j: usize) -> (r: Option<(usize, usize)>)
    requires
        j <= s@.len(),
    ensures
        capture_eq(r, scan_first(s@, j as int, ifc_ip_matcher())),
        r matches Some((a, b)) ==> a <= b <= s@.len(),
    decreases s@.len() - j,
{
    match try_ifc_ip(s, j) {
        Some(c) => Some(c),
        None => {
            if j >= s.unicode_len() {
                None
            } else {
                scan_ifc_ip(s, j + 1)
            }
        },
    }
}

fn try_netmask(s: &str, j: usize) -> (r: Option<(usize, usize)>)
    requires
        j <= s@.len(),
    ensures
        capture_eq(r, netmask_matcher()(s@, j as int)),
        r matches Some((a, b)) ==> a <= b <= s@.len(),
{
    proof {
        reveal_strlit("netmask");
    }
    try_marker_digit_dot(s, j, "netmask", 7)
}

fn scan_netmask(s: &str, j: usize) -> (r: Option<(usize, usize)>)
    requires
        j <= s@.len(),
    ensures
        capture_eq(r, scan_first(s@, j as int, netmask_matcher())),
        r matches Some((a, b)) ==> a <= b <= s@.len(),
    decreases s@.len() - j,
{
    match try_netmask(s, j) {
        Some(c) => Some(c),
        None => {
            if j >= s.unicode_len() {
                None
            } else {
                scan_netmask(s, j + 1)
            }
        },
    }
}

fn try_block_marker(s: &str, j: usize) -> (r: Option<(usize, usize)>)
    requires
        j <= s@.len(),
    ensures
        capture_eq(r, block_marker_matcher()(s@, j as int)),
        r matches Some((a, b)) ==> j <= a && a < b <= s@.len(),
{
    let n = s.unicode_len();
    if !(j < n && (j == 0 || s.get_char(j - 1) == '\n') && digit_char(s.get_char(j))) {
        return None;
    }
    let e = digit_run_end(s, j);
    if e < n && e + 1 < n && s.get_char(e) == ':' && s.get_char(e + 1) == ' ' {
        Some((j, e + 2))
    } else {
        None
    }
}

fn scan_block_marker(s: &str, j: usize) -> (r: Option<(usize, usize)>)
    requires
        j <= s@.len(),
    ensures
        capture_eq(r, scan_first(s@, j as int, block_marker_matcher())),
        r matches Some((a, b)) ==> j <= a && a < b <= s@.len(),
    decreases s@.len() - j,
{
    match try_block_marker(s, j) {
        Some(c) => Some(c),
        None => {
            if j >= s.unicode_len() {
                None
            } else {
                scan_block_marker(s, j + 1)
            }
        },
    }
}

// ---------------------------------------------------------------------------
// Splitting the modern dump into per-interface blocks
// ---------------------------------------------------------------------------

proof fn lemma_block_marker_shape(s: Seq<char>, k: int)
    ensures
        block_marker_matcher()(s, k) matches Some((a, b)) ==> k == a && a < b <= s.len(),
{
    if 0 <= k < s.len() && (k == 0 || s[k - 1] == '\n') && is_digit_char(s[k]) {
        lemma_run_end(s, k, digit_cls());
    }
}

/// The non-empty pieces of the modern dump from `j` on, split at every
/// numbered block marker; the markers themselves are removed.
pub open spec fn split_ip_blocks_from(s: Seq<char>, j: int) -> Seq<Seq<char>>
    decreases s.len() - j
    when 0 <= j <= s.len()
    via split_ip_blocks_from_decreases
{
    match scan_first(s, j, block_marker_matcher()) {
        None => if j == s.len() {
            Seq::empty()
        } else {
            seq![s.subrange(j, s.len() as int)]
        },
        Some((i, e)) => (if i == j {
            Seq::<Seq<char>>::empty()
        } else {
            seq![s.subrange(j, i)]
        }) + split_ip_blocks_from(s, e),
    }
}

#[via_fn]
proof fn split_ip_blocks_from_decreases(s: Seq<char>, j: int) {
    if scan_first(s, j, block_marker_matcher()) is Some {
        lemma_scan_first_witness(s, j, block_marker_matcher());
        let k = choose|k: int|
            j <= k <= s.len() && #[trigger] block_marker_matcher()(s, k) == scan_first(
                s,
                j,
                block_marker_matcher(),
            );
        lemma_block_marker_shape(s, k);
    }
}

fn split_ip_blocks(s: &str) -> (r: Vec<String>)
    ensures
        r.deep_view() == split_ip_blocks_from(s@, 0),
{
    let mut out: Vec<String> = Vec::new();
    let mut j: usize = 0;
    let n = s.unicode_len();
    loop
        invariant_except_break
            n == s@.len(),
            j <= n,
            out.deep_view() + split_ip_blocks_from(s@, j as int) == split_ip_blocks_from(s@, 0),
        ensures
            out.deep_view() == split_ip_blocks_from(s@, 0),
        decreases s@.len() - j,
    {
        match scan_block_marker(s, j) {
            None => {
                if j < n {
                    let piece = s.substring_char(j, n).to_owned();
                    let ghost prev = out.deep_view();
                    out.push(piece);
                    proof {
                        assert(out.deep_view() =~= prev.push(piece@));
                        assert(prev.push(piece@) =~= prev + split_ip_blocks_from(s@, j as int));
                    }
                } else {
                    proof {
                        assert(out.deep_view() + split_ip_blocks_from(s@, j as int)
                            =~= out.deep_view());
                    }
                }
                break;
            },
            Some((i, e)) => {
                if i > j {
                    let piece = s.substring_char(j, i).to_owned();
                    let ghost prev = out.deep_view();
                    out.push(piece);
                    proof {
                        assert(out.deep_view() =~= prev.push(piece@));
                        assert(prev.push(piece@) + split_ip_blocks_from(s@, e as int) =~= prev
                            + split_ip_blocks_from(s@, j as int));
                    }
                } else {
                    proof {
                        assert(out.deep_view() + split_ip_blocks_from(s@, e as int)
                            =~= out.deep_view() + split_ip_blocks_from(s@, j as int));
                    }
                }
                j = e;
            },
        }
    }
    out
}

// ---------------------------------------------------------------------------
// Block parsers
// ---------------------------------------------------------------------------

/// What parsing one block of the modern dump yields: name, state, hardware
/// address and address-with-prefix, each required.
pub open spec fn parse_ip_block_text(b: Seq<char>) -> Result<InterfaceSpec, ParseFailureSpec> {
    let ne = run_end(b, 0, word_cls());
    if !(ne > 0 && ne < b.len() && (b[ne] == ':' || b[ne] == '@')) {
        Err(failure(ParseReason::MissingName, b))
    } else {
        match scan_first(b, 0, state_matcher()) {
            None => Err(failure(ParseReason::MissingState, b)),
            Some((sa, se)) => match scan_first(b, 0, link_line_matcher()) {
                None => Err(failure(ParseReason::MissingMac, b)),
                Some((ma, me)) => match parse_mac_text(b.subrange(ma, me)) {
                    None => Err(failure(ParseReason::InvalidMac, b.subrange(ma, me))),
                    Some(mac) => match scan_first(b, 0, cidr_matcher()) {
                        None => Err(failure(ParseReason::MissingAddress, b)),
                        Some((ca, ce)) => match parse_cidr_text(b.subrange(ca, ce)) {
                            None => Err(failure(ParseReason::InvalidAddress, b.subrange(ca, ce))),
                            Some(cidr) => Ok(
                                InterfaceSpec {
                                    name: b.subrange(0, ne),
                                    mac,
                                    cidr,
                                    status: b.subrange(sa, se),
                                },
                            ),
                        },
                    },
                },
            },
        }
    }
}

fn parse_ip_block(b: &str) -> (r: Result<Interface, ParseFailure>)
    ensures
        match r {
            Ok(rec) => parse_ip_block_text(b@) == Ok::<InterfaceSpec, ParseFailureSpec>(rec@),
            Err(e) => parse_ip_block_text(b@) == Err::<InterfaceSpec, ParseFailureSpec>(e@),
        },
{
    let n = b.unicode_len();
    let ne = word_run_end(b, 0);
    if !(ne > 0 && ne < n && (b.get_char(ne) == ':' || b.get_char(ne) == '@')) {
        return Err(
            ParseFailure { reason: ParseReason::MissingName, offending_text: b.to_owned() },
        );
    }
    let (sa, se) = match scan_state(b, 0) {
        None => {
            return Err(
                ParseFailure { reason: ParseReason::MissingState, offending_text: b.to_owned() },
            );
        },
        Some(c) => c,
    };
    let (ma, me) = match scan_link_line(b, 0) {
        None => {
            return Err(
                ParseFailure { reason: ParseReason::MissingMac, offending_text: b.to_owned() },
            );
        },
        Some(c) => c,
    };
    let mac_text_str = b.substring_char(ma, me);
    let mac = match MAC::try_from(mac_text_str) {
        None => {
            return Err(
                ParseFailure {
                    reason: ParseReason::InvalidMac,
                    offending_text: mac_text_str.to_owned(),
                },
            );
        },
        Some(m) => m,
    };
    let (ca, ce) = match scan_cidr(b, 0) {
        None => {
            return Err(
                ParseFailure { reason: ParseReason::MissingAddress, offending_text: b.to_owned() },
            );
        },
        Some(c) => c,
    };
    let cidr_text_str = b.substring_char(ca, ce);
    let cidr = match CIDR::try_from(cidr_text_str) {
        None => {
            return Err(
                ParseFailure {
                    reason: ParseReason::InvalidAddress,
                    offending_text: cidr_text_str.to_owned(),
                },
            );
        },
        Some(c) => c,
    };
    Ok(
        Interface {
            name: b.substring_char(0, ne).to_owned(),
            mac,
            cidr,
            status: b.substring_char(sa, se).to_owned(),
        },
    )
}

/// What parsing one block of the legacy listing yields: name, bracketed
/// status flag, hardware address, address, and dotted-decimal mask, each
/// required; the prefix length is the mask's popcount.
pub open spec fn parse_ifc_block_text(b: Seq<char>) -> Result<InterfaceSpec, ParseFailureSpec> {
    let ne = run_end(b, 0, word_dash_cls());
    if ne == 0 {
        Err(failure(ParseReason::MissingName, b))
    } else {
        match scan_first(b, 0, status_matcher()) {
            None => Err(failure(ParseReason::MissingStatus, b)),
            Some((sa, se)) => match scan_first(b, 0, ether_matcher()) {
                None => Err(failure(ParseReason::MissingMac, b)),
                Some((ma, me)) => match parse_mac_text(b.subrange(ma, me)) {
                    None => Err(failure(ParseReason::InvalidMac, b.subrange(ma, me))),
                    Some(mac) => match scan_first(b, 0, ifc_ip_matcher()) {
                        None => Err(failure(ParseReason::MissingAddress, b)),
                        Some((ia, ie)) => match parse_ip_addr_text(b.subrange(ia, ie)) {
                            None => Err(failure(ParseReason::InvalidAddress, b.subrange(ia, ie))),
                            Some(ip) => match scan_first(b, 0, netmask_matcher()) {
                                None => Err(failure(ParseReason::MissingMask, b)),
                                Some((ka, ke)) => match parse_ipv4_text(b.subrange(ka, ke)) {
                                    None => Err(
                                        failure(ParseReason::InvalidMask, b.subrange(ka, ke)),
                                    ),
                                    Some(mask) => Ok(
                                        InterfaceSpec {
                                            name: b.subrange(0, ne),
                                            mac,
                                            cidr: CIDR(ip, mask_prefix_length(mask) as u8),
                                            status: b.subrange(sa, se),
                                        },
                                    ),
                                },
                            },
                        },
                    },
                },
            },
        }
    }
}

fn parse_ifc_block(b: &str) -> (r: Result<Interface, ParseFailure>)
    ensures
        match r {
            Ok(rec) => parse_ifc_block_text(b@) == Ok::<InterfaceSpec, ParseFailureSpec>(rec@),
            Err(e) => parse_ifc_block_text(b@) == Err::<InterfaceSpec, ParseFailureSpec>(e@),
        },
{
    let ne = word_dash_run_end(b, 0);
    if ne == 0 {
        return Err(
            ParseFailure { reason: ParseReason::MissingName, offending_text: b.to_owned() },
        );
    }
    let (sa, se) = match scan_status(b, 0) {
        None => {
            return Err(
                ParseFailure { reason: ParseReason::MissingStatus, offending_text: b.to_owned() },
            );
        },
        Some(c) => c,
    };
    let (ma, me) = match scan_ether(b, 0) {
        None => {
            return Err(
                ParseFailure { reason: ParseReason::MissingMac, offending_text: b.to_owned() },
            );
        },
        Some(c) => c,
    };
    let mac_text_str = b.substring_char(ma, me);
    let mac = match MAC::try_from(mac_text_str) {
        None => {
            return Err(
                ParseFailure {
                    reason: ParseReason::InvalidMac,
                    offending_text: mac_text_str.to_owned(),
                },
            );
        },
        Some(m) => m,
    };
    let (ia, ie) = match scan_ifc_ip(b, 0) {
        None => {
            return Err(
                ParseFailure { reason: ParseReason::MissingAddress, offending_text: b.to_owned() },
            );
        },
        Some(c) => c,
    };
    let ip_text_str = b.substring_char(ia, ie);
    let ip = match parse_ip_addr(ip_text_str) {
        None => {
            return Err(
                ParseFailure {
                    reason: ParseReason::InvalidAddress,
                    offending_text: ip_text_str.to_owned(),
                },
            );
        },
        Some(a) => a,
    };
    let (ka, ke) = match scan_netmask(b, 0) {
        None => {
            return Err(
                ParseFailure { reason: ParseReason::MissingMask, offending_text: b.to_owned() },
            );
        },
        Some(c) => c,
    };
    let mask_text_str = b.substring_char(ka, ke);
    let mask = match parse_ipv4_str(mask_text_str) {
        None => {
            return Err(
                ParseFailure {
                    reason: ParseReason::InvalidMask,
                    offending_text: mask_text_str.to_owned(),
                },
            );
        },
        Some(m) => m,
    };
    let cidr = CIDR::new(ip, mask);
    proof {
        lemma_bit_count_bound(mask.o0);
        lemma_bit_count_bound(mask.o1);
        lemma_bit_count_bound(mask.o2);
        lemma_bit_count_bound(mask.o3);
    }
    Ok(
        Interface {
            name: b.substring_char(0, ne).to_owned(),
            mac,
            cidr,
            status: b.substring_char(sa, se).to_owned(),
        },
    )
}

fn parse_ipv4_str(value: &str) -> (r: Option<V4Addr>)
    ensures
        r == parse_ipv4_text(value@),
{
    match parse_ip_addr(value) {
        Some(IpAddress::V4(a)) => Some(a),
        _ => None,
    }
}

// ---------------------------------------------------------------------------
// Whole-output parsers
// ---------------------------------------------------------------------------

/// Fail-fast sequencing: all records of all blocks from `k` on, or the
/// first failure.
pub open spec fn parse_ip_blocks_from(blocks: Seq<Seq<char>>, k: int) -> Result<
    Seq<InterfaceSpec>,
    ParseFailureSpec,
>
    decreases blocks.len() - k
    when 0 <= k <= blocks.len()
{
    if k >= blocks.len() {
        Ok(Seq::empty())
    } else {
        match parse_ip_block_text(blocks[k]) {
            Err(e) => Err(e),
            Ok(one) => match parse_ip_blocks_from(blocks, k + 1) {
                Err(e) => Err(e),
                Ok(rest) => Ok(seq![one] + rest),
            },
        }
    }
}

pub open spec fn parse_ifc_blocks_from(blocks: Seq<Seq<char>>, k: int) -> Result<
    Seq<InterfaceSpec>,
    ParseFailureSpec,
>
    decreases blocks.len() - k
    when 0 <= k <= blocks.len()
{
    if k >= blocks.len() {
        Ok(Seq::empty())
    } else {
        match parse_ifc_block_text(blocks[k]) {
            Err(e) => Err(e),
            Ok(one) => match parse_ifc_blocks_from(blocks, k + 1) {
                Err(e) => Err(e),
                Ok(rest) => Ok(seq![one] + rest),
            },
        }
    }
}

/// What parsing the whole modern dump yields: the records of its numbered
/// blocks, in output order, or the first block's failure.
pub open spec fn parse_ip_output_text(out: Seq<char>) -> Result<
    Seq<InterfaceSpec>,
    ParseFailureSpec,
> {
    parse_ip_blocks_from(split_ip_blocks_from(out, 0), 0)
}

/// What parsing the whole legacy listing yields: the records of its
/// blank-line-separated blocks, in output order, or the first failure.
pub open spec fn parse_ifc_output_text(out: Seq<char>) -> Result<
    Seq<InterfaceSpec>,
    ParseFailureSpec,
> {
    parse_ifc_blocks_from(split_lit_from(out, "\n\n"@, 0), 0)
}

pub fn parse_ip_output(out: &str) -> (r: Result<Vec<Interface>, ParseFailure>)
    ensures
        parse_outcome(r) == parse_ip_output_text(out@),
{
    let blocks = split_ip_blocks(out);
    let ghost bs = blocks.deep_view();
    let mut recs: Vec<Interface> = Vec::new();
    let mut k: usize = 0;
    proof {
        assert(bs.len() == blocks@.len());
        assert(forall|i: int| 0 <= i < blocks@.len() ==> bs[i] == #[trigger] blocks@[i]@);
    }
    while k < blocks.len()
        invariant
            0 <= k <= blocks@.len(),
            bs == blocks.deep_view(),
            bs.len() == blocks@.len(),
            forall|i: int| 0 <= i < blocks@.len() ==> bs[i] == #[trigger] blocks@[i]@,
            parse_ip_blocks_from(bs, 0) == (match parse_ip_blocks_from(bs, k as int) {
                Ok(rest) => Ok::<Seq<InterfaceSpec>, ParseFailureSpec>(recs.deep_view() + rest),
                Err(e) => Err::<Seq<InterfaceSpec>, ParseFailureSpec>(e),
            }),
            parse_ip_output_text(out@) == parse_ip_blocks_from(bs, 0),
        decreases blocks@.len() - k,
    {
        match parse_ip_block(blocks[k].as_str()) {
            Err(e) => {
                return Err(e);
            },
            Ok(one) => {
                let ghost prev = recs.deep_view();
                recs.push(one);
                proof {
                    assert(recs.deep_view() =~= prev.push(one@));
                    if parse_ip_blocks_from(bs, k as int + 1) is Ok {
                        assert(prev.push(one@) + parse_ip_blocks_from(bs, k as int + 1)->Ok_0
                            =~= prev + parse_ip_blocks_from(bs, k as int)->Ok_0);
                    }
                }
            },
        }
        k = k + 1;
    }
    proof {
        assert(recs.deep_view() + Seq::<InterfaceSpec>::empty() =~= recs.deep_view());
    }
    Ok(recs)
}

pub fn parse_ifc_output(out: &str) -> (r: Result<Vec<Interface>, ParseFailure>)
    ensures
        parse_outcome(r) == parse_ifc_output_text(out@),
{
    proof {
        reveal_strlit("\n\n");
    }
    let blocks = split_lit_nonempty(out, "\n\n");
    let ghost bs = blocks.deep_view();
    let mut recs: Vec<Interface> = Vec::new();
    let mut k: usize = 0;
    proof {
        assert(bs.len() == blocks@.len());
        assert(forall|i: int| 0 <= i < blocks@.len() ==> bs[i] == #[trigger] blocks@[i]@);
    }
    while k < blocks.len()
        invariant
            0 <= k <= blocks@.len(),
            bs == blocks.deep_view(),
            bs.len() == blocks@.len(),
            forall|i: int| 0 <= i < blocks@.len() ==> bs[i] == #[trigger] blocks@[i]@,
            parse_ifc_blocks_from(bs, 0) == (match parse_ifc_blocks_from(bs, k as int) {
                Ok(rest) => Ok::<Seq<InterfaceSpec>, ParseFailureSpec>(recs.deep_view() + rest),
                Err(e) => Err::<Seq<InterfaceSpec>, ParseFailureSpec>(e),
            }),
            parse_ifc_output_text(out@) == parse_ifc_blocks_from(bs, 0),
        decreases blocks@.len() - k,
    {
        match parse_ifc_block(blocks[k].as_str()) {
            Err(e) => {
                return Err(e);
            },
            Ok(one) => {
                let ghost prev = recs.deep_view();
                recs.push(one);
                proof {
                    assert(recs.deep_view() =~= prev.push(one@));
                    if parse_ifc_blocks_from(bs, k as int + 1) is Ok {
                        assert(prev.push(one@) + parse_ifc_blocks_from(bs, k as int + 1)->Ok_0
                            =~= prev + parse_ifc_blocks_from(bs, k as int)->Ok_0);
                    }
                }
            },
        }
        k = k + 1;
    }
    proof {
        assert(recs.deep_view() + Seq::<InterfaceSpec>::empty() =~= recs.deep_view());
    }
    Ok(recs)
}

} // verus!
