//! The address blacklist, checked before any protocol logic runs.  An
//! entry matches exactly, or — when it holds `*` — as an anchored
//! pattern where each `*` stands for a run of characters within one
//! address segment (a run without a dot).

use vstd::prelude::*;

use crate::text::{
    chars_of, contains_char, has_char, trim_spaces, trim_ws,
};

verus! {

/// The blacklist policy: a switch and an ordered list of patterns.
pub struct BlacklistPolicy {
    pub enabled: bool,
    pub entries: Vec<String>,
}

/// The characters of `addr` before its first `:` (the port suffix is
/// dropped; an address without one is kept whole).
pub open spec fn first_colon(s: Seq<char>) -> nat
    decreases s.len(),
{
    if s.len() == 0 {
        0
    } else if s[0] == ':' {
        0
    } else {
        1 + first_colon(s.drop_first())
    }
}

pub open spec fn strip_port(addr: Seq<char>) -> Seq<char> {
    addr.subrange(0, first_colon(addr) as int)
}

proof fn lemma_first_colon_at(s: Seq<char>, j: int)
    requires
        0 <= j <= s.len(),
        forall|k: int| 0 <= k < j ==> s[k] != ':',
        j < s.len() ==> s[j] == ':',
    ensures
        first_colon(s) == j,
    decreases s.len(),
{
    if s.len() == 0 {
    } else if j == 0 {
        assert(s[0] == ':');
    } else {
        assert(s[0] != ':');
        assert forall|k: int| 0 <= k < j - 1 implies s.drop_first()[k] != ':' by {
            assert(s.drop_first()[k] == s[k + 1]);
        }
        if j - 1 < s.drop_first().len() {
            assert(s.drop_first()[j - 1] == s[j]);
        }
        lemma_first_colon_at(s.drop_first(), j - 1);
    }
}

/// Executable port stripping, pinned to `strip_port`.
pub fn strip_port_suffix(addr: &str) -> (r: String)
    ensures
        r@ == strip_port(addr@),
{
    let n = addr.unicode_len();
    let mut i: usize = 0;
    loop
        invariant
            n == addr@.len(),
            0 <= i <= n,
            forall|k: int| 0 <= k < i ==> addr@[k] != ':',
        ensures
            0 <= i <= n,
            forall|k: int| 0 <= k < i ==> addr@[k] != ':',
            i == n || addr@[i as int] == ':',
        decreases n - i,
    {
        if i == n {
            break;
        }
        if addr.get_char(i) == ':' {
            break;
        }
        i = i + 1;
    }
    proof {
        lemma_first_colon_at(addr@, i as int);
    }
    addr.substring_char(0, i).to_owned()
}

/// Anchored wildcard matching: `*` stands for any run of characters
/// that does not cross a `.`, every other character stands for itself.
/// So `192.168.1.*` covers `192.168.1.50` but neither `192.168.2.50`
/// nor `192.168.1.5.1`.
pub open spec fn glob_match(p: Seq<char>, s: Seq<char>) -> bool
    decreases p.len() + s.len(),
{
    if p.len() == 0 {
        s.len() == 0
    } else if p[0] == '*' {
        glob_match(p.drop_first(), s) || (s.len() > 0 && s[0] != '.' && glob_match(
            p,
            s.drop_first(),
        ))
    } else {
        s.len() > 0 && p[0] == s[0] && glob_match(p.drop_first(), s.drop_first())
    }
}

/// Executable wildcard matching over the tails `p[pi..]` and `s[si..]`.
fn glob_match_at(p: &Vec<char>, s: &Vec<char>, pi: usize, si: usize) -> (r: bool)
    requires
        pi <= p@.len(),
        si <= s@.len(),
    ensures
        r == glob_match(
            p@.subrange(pi as int, p@.len() as int),
            s@.subrange(si as int, s@.len() as int),
        ),
    decreases p@.len() - pi + s@.len() - si,
{
    let ghost pt = p@.subrange(pi as int, p@.len() as int);
    let ghost st = s@.subrange(si as int, s@.len() as int);
    if pi == p.len() {
        return si == s.len();
    }
    proof {
        assert(pt[0] == p@[pi as int]);
        assert(pt.drop_first() =~= p@.subrange(pi + 1, p@.len() as int));
        if si < s@.len() {
            assert(st[0] == s@[si as int]);
            assert(st.drop_first() =~= s@.subrange(si + 1, s@.len() as int));
        }
    }
    if p[pi] == '*' {
        if glob_match_at(p, s, pi + 1, si) {
            return true;
        }
        if si < s.len() && s[si] != '.' {
            return glob_match_at(p, s, pi, si + 1);
        }
        false
    } else {
        if si == s.len() {
            return false;
        }
        if p[pi] != s[si] {
            return false;
        }
        glob_match_at(p, s, pi + 1, si + 1)
    }
}

/// Whether one blacklist entry covers `ip`: trimmed, then matched as a
/// wildcard pattern when it holds `*`, else compared exactly.
pub open spec fn entry_matches(entry: Seq<char>, ip: Seq<char>) -> bool {
    let e = trim_ws(entry);
    if contains_char(e, '*') {
        glob_match(e, ip)
    } else {
        e == ip
    }
}

/// Whether the policy blocks `addr`: only when enabled, and then iff
/// some entry covers the address with its port suffix dropped.
pub open spec fn addr_blocked(policy: &BlacklistPolicy, addr: Seq<char>) -> bool {
    policy.enabled && exists|i: int|
        0 <= i < policy.entries@.len() && entry_matches(policy.entries@[i]@, strip_port(addr))
}

/// Executable check of one entry.
fn entry_covers(entry: &str, ip: &str) -> (r: bool)
    ensures
        r == entry_matches(entry@, ip@),
{
    let trimmed = trim_spaces(entry);
    if has_char(trimmed.as_str(), '*') {
        let p = chars_of(trimmed.as_str());
        let s = chars_of(ip);
        proof {
            assert(p@.subrange(0, p@.len() as int) =~= p@);
            assert(s@.subrange(0, s@.len() as int) =~= s@);
        }
        glob_match_at(&p, &s, 0, 0)
    } else {
        crate::text::str_eq(trimmed.as_str(), ip)
    }
}

/// The hard gate in front of everything: whether `ip` (a raw peer
/// address, possibly with a port suffix) is blacklisted under
/// `policy`.  A disabled policy blocks nothing.
pub fn is_ip_blacklisted(ip: &str, policy: &BlacklistPolicy) -> (r: bool)
    ensures
        r == addr_blocked(policy, ip@),
{
    if !policy.enabled {
        return false;
    }
    let bare = strip_port_suffix(ip);
    let n = policy.entries.len();
    let mut i: usize = 0;
    while i < n
        invariant
            n == policy.entries@.len(),
            policy.enabled,
            bare@ == strip_port(ip@),
            0 <= i <= n,
            forall|k: int| 0 <= k < i ==> !entry_matches(policy.entries@[k]@, strip_port(ip@)),
        decreases n - i,
    {
        let hit = entry_covers(policy.entries[i].as_str(), bare.as_str());
        proof {
            assert(hit == entry_matches(policy.entries@[i as int]@, strip_port(ip@)));
        }
        if hit {
            return true;
        }
        i = i + 1;
    }
    false
}


/// A disabled blacklist blocks nothing, whatever its entries hold.
pub proof fn lemma_disabled_policy_blocks_nothing(policy: &BlacklistPolicy, addr: Seq<char>)
    requires
        !policy.enabled,
    ensures
        !addr_blocked(policy, addr),
{
}

} // verus!
