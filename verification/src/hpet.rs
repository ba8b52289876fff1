//! Classifying the host's timer source (HPET) from a boot-configuration
//! listing.
//!
//! The listing is read line by line; a line's first two
//! whitespace-separated tokens are its key and value, compared without
//! regard to ASCII case. Two keys matter, `useplatformclock` and
//! `disabledynamictick`, and where a key repeats its last line counts.
//! The timer source counts as disabled when `useplatformclock` says no
//! (or is absent) while `disabledynamictick` says yes, and also when
//! both keys are absent; anything else counts as enabled. Absent keys
//! have been read both ways historically; this library fixes the rule
//! just stated.

use vstd::prelude::*;
use crate::text::lines;
use crate::text::lines_from;
use crate::text::read_line;

verus! {

/// ASCII whitespace, the separators the listing uses.
pub open spec fn is_space(b: u8) -> bool {
    b == 32 || b == 9 || b == 10 || b == 11 || b == 12 || b == 13
}

/// First non-whitespace position in `l` at or after `i`, or the end.
pub open spec fn skip_spaces(l: Seq<u8>, i: int) -> int
    decreases l.len() - i,
{
    if i < 0 || i >= l.len() {
        l.len() as int
    } else if !is_space(l[i]) {
        i
    } else {
        skip_spaces(l, i + 1)
    }
}

/// First whitespace position in `l` at or after `i`, or the end.
pub open spec fn token_end(l: Seq<u8>, i: int) -> int
    decreases l.len() - i,
{
    if i < 0 || i >= l.len() {
        l.len() as int
    } else if is_space(l[i]) {
        i
    } else {
        token_end(l, i + 1)
    }
}

proof fn lemma_skip_spaces(l: Seq<u8>, from: int)
    requires
        0 <= from <= l.len(),
    ensures
        from <= skip_spaces(l, from) <= l.len(),
        skip_spaces(l, from) < l.len() ==> !is_space(l[skip_spaces(l, from)]),
        forall|j: int| from <= j < skip_spaces(l, from) ==> is_space(l[j]),
    decreases l.len() - from,
{
    if from < l.len() && is_space(l[from]) {
        lemma_skip_spaces(l, from + 1);
    }
}

proof fn lemma_skip_spaces_is(l: Seq<u8>, from: int, k: int)
    requires
        0 <= from <= k <= l.len(),
        forall|j: int| from <= j < k ==> is_space(l[j]),
        k < l.len() ==> !is_space(l[k]),
    ensures
        skip_spaces(l, from) == k,
    decreases k - from,
{
    if from < k {
        lemma_skip_spaces_is(l, from + 1, k);
    }
}

proof fn lemma_token_end_is(l: Seq<u8>, from: int, k: int)
    requires
        0 <= from <= k <= l.len(),
        forall|j: int| from <= j < k ==> !is_space(l[j]),
        k < l.len() ==> is_space(l[k]),
    ensures
        token_end(l, from) == k,
    decreases k - from,
{
    if from < k {
        lemma_token_end_is(l, from + 1, k);
    }
}

fn is_space_byte(b: u8) -> (r: bool)
    ensures
        r == is_space(b),
{
    b == 32 || b == 9 || b == 10 || b == 11 || b == 12 || b == 13
}

fn skip_ws(l: &[u8], from: usize) -> (r: usize)
    requires
        from <= l@.len(),
    ensures
        r == skip_spaces(l@, from as int),
        from <= r <= l@.len(),
{
    let n = l.len();
    let mut i = from;
    while i < n
        invariant
            from <= i <= n == l@.len(),
            forall|j: int| from <= j < i ==> is_space(l@[j]),
        decreases n - i,
    {
        if !is_space_byte(l[i]) {
            proof {
                lemma_skip_spaces_is(l@, from as int, i as int);
            }
            return i;
        }
        i += 1;
    }
    proof {
        lemma_skip_spaces_is(l@, from as int, n as int);
    }
    n
}

fn tok_end(l: &[u8], from: usize) -> (r: usize)
    requires
        from <= l@.len(),
    ensures
        r == token_end(l@, from as int),
        from <= r <= l@.len(),
{
    let n = l.len();
    let mut i = from;
    while i < n
        invariant
            from <= i <= n == l@.len(),
            forall|j: int| from <= j < i ==> !is_space(l@[j]),
        decreases n - i,
    {
        if is_space_byte(l[i]) {
            proof {
                lemma_token_end_is(l@, from as int, i as int);
            }
            return i;
        }
        i += 1;
    }
    proof {
        lemma_token_end_is(l@, from as int, n as int);
    }
    n
}

/// A byte with any ASCII upper-case letter folded to lower case.
pub open spec fn lower(b: u8) -> u8 {
    if 65 <= b <= 90 {
        (b + 32) as u8
    } else {
        b
    }
}

pub open spec fn lower_seq(s: Seq<u8>) -> Seq<u8> {
    s.map_values(|b: u8| lower(b))
}

fn lower_byte(b: u8) -> (r: u8)
    ensures
        r == lower(b),
{
    if 65 <= b && b <= 90 {
        b + 32
    } else {
        b
    }
}

/// Case-insensitive comparison of a token against a lower-case pattern.
fn lower_eq(t: &[u8], pat: &Vec<u8>) -> (r: bool)
    ensures
        r == (lower_seq(t@) == pat@),
{
    let n = t.len();
    if n != pat.len() {
        proof {
            assert(lower_seq(t@).len() == t@.len());
        }
        return false;
    }
    let mut i: usize = 0;
    while i < n
        invariant
            i <= n == t@.len() == pat@.len(),
            forall|j: int| 0 <= j < i ==> lower_seq(t@)[j] == pat@[j],
        decreases n - i,
    {
        if lower_byte(t[i]) != pat[i] {
            proof {
                assert(lower_seq(t@)[i as int] == lower(t@[i as int]));
            }
            return false;
        }
        i += 1;
    }
    proof {
        assert(lower_seq(t@) =~= pat@);
    }
    true
}

/// The key `useplatformclock`, lower case.
pub open spec fn upc_key() -> Seq<u8> {
    seq![
        'u' as u8,
        's' as u8,
        'e' as u8,
        'p' as u8,
        'l' as u8,
        'a' as u8,
        't' as u8,
        'f' as u8,
        'o' as u8,
        'r' as u8,
        'm' as u8,
        'c' as u8,
        'l' as u8,
        'o' as u8,
        'c' as u8,
        'k' as u8,
    ]
}

/// The key `disabledynamictick`, lower case.
pub open spec fn ddt_key() -> Seq<u8> {
    seq![
        'd' as u8,
        'i' as u8,
        's' as u8,
        'a' as u8,
        'b' as u8,
        'l' as u8,
        'e' as u8,
        'd' as u8,
        'y' as u8,
        'n' as u8,
        'a' as u8,
        'm' as u8,
        'i' as u8,
        'c' as u8,
        't' as u8,
        'i' as u8,
        'c' as u8,
        'k' as u8,
    ]
}

pub open spec fn yes_token() -> Seq<u8> {
    seq!['y' as u8, 'e' as u8, 's' as u8]
}

pub open spec fn no_token() -> Seq<u8> {
    seq!['n' as u8, 'o' as u8]
}

fn upc_key_bytes() -> (v: Vec<u8>)
    ensures
        v@ == upc_key(),
{
    let mut v: Vec<u8> = Vec::new();
    v.push('u' as u8);
    v.push('s' as u8);
    v.push('e' as u8);
    v.push('p' as u8);
    v.push('l' as u8);
    v.push('a' as u8);
    v.push('t' as u8);
    v.push('f' as u8);
    v.push('o' as u8);
    v.push('r' as u8);
    v.push('m' as u8);
    v.push('c' as u8);
    v.push('l' as u8);
    v.push('o' as u8);
    v.push('c' as u8);
    v.push('k' as u8);
    proof {
        assert(v@ =~= upc_key());
    }
    v
}

fn ddt_key_bytes() -> (v: Vec<u8>)
    ensures
        v@ == ddt_key(),
{
    let mut v: Vec<u8> = Vec::new();
    v.push('d' as u8);
    v.push('i' as u8);
    v.push('s' as u8);
    v.push('a' as u8);
    v.push('b' as u8);
    v.push('l' as u8);
    v.push('e' as u8);
    v.push('d' as u8);
    v.push('y' as u8);
    v.push('n' as u8);
    v.push('a' as u8);
    v.push('m' as u8);
    v.push('i' as u8);
    v.push('c' as u8);
    v.push('t' as u8);
    v.push('i' as u8);
    v.push('c' as u8);
    v.push('k' as u8);
    proof {
        assert(v@ =~= ddt_key());
    }
    v
}

fn yes_token_bytes() -> (v: Vec<u8>)
    ensures
        v@ == yes_token(),
{
    let mut v: Vec<u8> = Vec::new();
    v.push('y' as u8);
    v.push('e' as u8);
    v.push('s' as u8);
    proof {
        assert(v@ =~= yes_token());
    }
    v
}

fn no_token_bytes() -> (v: Vec<u8>)
    ensures
        v@ == no_token(),
{
    let mut v: Vec<u8> = Vec::new();
    v.push('n' as u8);
    v.push('o' as u8);
    proof {
        assert(v@ =~= no_token());
    }
    v
}

/// What a value token says about its key.
#[derive(Clone, Copy, Debug, PartialEq, Eq, Structural)]
pub enum KeySetting {
    Yes,
    No,
    Other,
}

/// The reading of a value token, without regard to ASCII case.
pub open spec fn spec_setting_of(v: Seq<u8>) -> KeySetting {
    if lower_seq(v) == yes_token() {
        KeySetting::Yes
    } else if lower_seq(v) == no_token() {
        KeySetting::No
    } else {
        KeySetting::Other
    }
}

fn setting_of(v: &[u8]) -> (r: KeySetting)
    ensures
        r == spec_setting_of(v@),
{
    let yes = yes_token_bytes();
    if lower_eq(v, &yes) {
        return KeySetting::Yes;
    }
    let no = no_token_bytes();
    if lower_eq(v, &no) {
        return KeySetting::No;
    }
    KeySetting::Other
}

/// A line's key and value: its first two whitespace-separated tokens.
pub open spec fn line_tokens(l: Seq<u8>) -> Option<(Seq<u8>, Seq<u8>)> {
    let a = skip_spaces(l, 0);
    if a == l.len() {
        None
    } else {
        let b = token_end(l, a);
        let c = skip_spaces(l, b);
        if c == l.len() {
            None
        } else {
            let d = token_end(l, c);
            Some((l.subrange(a, b), l.subrange(c, d)))
        }
    }
}

/// The setting a line assigns to `key`, if that is the line's key.
pub open spec fn line_setting(l: Seq<u8>, key: Seq<u8>) -> Option<KeySetting> {
    match line_tokens(l) {
        Some(kv) => if lower_seq(kv.0) == key {
            Some(spec_setting_of(kv.1))
        } else {
            None
        },
        None => None,
    }
}

/// The last assignment to `key` over a sequence of lines.
pub open spec fn last_setting(ls: Seq<Seq<u8>>, key: Seq<u8>) -> Option<KeySetting>
    decreases ls.len(),
{
    if ls.len() == 0 {
        None
    } else {
        match last_setting(ls.skip(1), key) {
            Some(v) => Some(v),
            None => line_setting(ls[0], key),
        }
    }
}

/// The two timer-source keys as a listing leaves them.
#[derive(Clone, Copy, Debug)]
pub struct TimerSourceSettings {
    pub use_platform_clock: Option<KeySetting>,
    pub disable_dynamic_tick: Option<KeySetting>,
}

/// Reads the two key settings out of a line: at most one of the pair is
/// set, since the keys differ.
fn scan_line(l: &[u8]) -> (r: (Option<KeySetting>, Option<KeySetting>))
    ensures
        r.0 == line_setting(l@, upc_key()),
        r.1 == line_setting(l@, ddt_key()),
{
    let n = l.len();
    let a = skip_ws(l, 0);
    if a == n {
        return (None, None);
    }
    let b = tok_end(l, a);
    let c = skip_ws(l, b);
    if c == n {
        return (None, None);
    }
    let d = tok_end(l, c);
    let tok1 = &l[a..b];
    let tok2 = &l[c..d];
    proof {
        assert(tok1@ =~= l@.subrange(a as int, b as int));
        assert(tok2@ =~= l@.subrange(c as int, d as int));
    }
    let upc = upc_key_bytes();
    if lower_eq(tok1, &upc) {
        proof {
            assert(lower_seq(tok1@) != ddt_key());
        }
        return (Some(setting_of(tok2)), None);
    }
    let ddt = ddt_key_bytes();
    if lower_eq(tok1, &ddt) {
        return (None, Some(setting_of(tok2)));
    }
    (None, None)
}

/// Scans a whole boot-configuration listing for the two keys. Of each
/// line only the first two tokens count, and where a key repeats, its
/// last line wins.
pub fn inspect_timer_source(listing: &[u8]) -> (r: TimerSourceSettings)
    ensures
        r.use_platform_clock == last_setting(lines(listing@), upc_key()),
        r.disable_dynamic_tick == last_setting(lines(listing@), ddt_key()),
{
    let n = listing.len();
    let mut upc: Option<KeySetting> = None;
    let mut ddt: Option<KeySetting> = None;
    let mut pos: usize = 0;
    while pos < n
        invariant
            pos <= n == listing@.len(),
            last_setting(lines(listing@), upc_key()) == match last_setting(
                lines_from(listing@, pos as int),
                upc_key(),
            ) {
                Some(v) => Some(v),
                None => upc,
            },
            last_setting(lines(listing@), ddt_key()) == match last_setting(
                lines_from(listing@, pos as int),
                ddt_key(),
            ) {
                Some(v) => Some(v),
                None => ddt,
            },
        decreases n - pos,
    {
        let (line, next) = read_line(listing, pos);
        proof {
            let rest = lines_from(listing@, pos as int);
            assert(rest[0] == line@);
            assert(rest.skip(1) =~= lines_from(listing@, next as int));
        }
        let (u, d) = scan_line(line);
        proof {
            lemma_last_setting_step(
                lines_from(listing@, pos as int),
                lines_from(listing@, next as int),
                line@,
                upc_key(),
            );
            lemma_last_setting_step(
                lines_from(listing@, pos as int),
                lines_from(listing@, next as int),
                line@,
                ddt_key(),
            );
        }
        if u.is_some() {
            upc = u;
        }
        if d.is_some() {
            ddt = d;
        }
        pos = next;
    }
    TimerSourceSettings { use_platform_clock: upc, disable_dynamic_tick: ddt }
}

proof fn lemma_last_setting_step(
    rest: Seq<Seq<u8>>,
    rest2: Seq<Seq<u8>>,
    line: Seq<u8>,
    key: Seq<u8>,
)
    requires
        rest.len() > 0,
        rest[0] == line,
        rest.skip(1) == rest2,
    ensures
        last_setting(rest, key) == match last_setting(rest2, key) {
            Some(v) => Some(v),
            None => line_setting(line, key),
        },
{
}

/// The classification of the timer source.
#[derive(Clone, Copy, Debug, PartialEq, Eq, Structural)]
pub enum HpetStatus {
    Enabled,
    Disabled,
}

/// The fixed classification rule: disabled when `useplatformclock` says
/// no or is absent while `disabledynamictick` says yes, and when both
/// keys are absent; enabled in every other case.
pub open spec fn spec_classify(upc: Option<KeySetting>, ddt: Option<KeySetting>) -> HpetStatus {
    match (upc, ddt) {
        (Some(KeySetting::No), Some(KeySetting::Yes)) => HpetStatus::Disabled,
        (None, Some(KeySetting::Yes)) => HpetStatus::Disabled,
        (None, None) => HpetStatus::Disabled,
        _ => HpetStatus::Enabled,
    }
}

/// Classifies the timer source from the two key settings.
pub fn classify_timer_source(settings: &TimerSourceSettings) -> (r: HpetStatus)
    ensures
        r == spec_classify(settings.use_platform_clock, settings.disable_dynamic_tick),
{
    match (settings.use_platform_clock, settings.disable_dynamic_tick) {
        (Some(KeySetting::No), Some(KeySetting::Yes)) => HpetStatus::Disabled,
        (None, Some(KeySetting::Yes)) => HpetStatus::Disabled,
        (None, None) => HpetStatus::Disabled,
        _ => HpetStatus::Enabled,
    }
}

} // verus!
