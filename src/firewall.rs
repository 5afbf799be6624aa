use vstd::prelude::*;

use vstd::string::{StringExecFns, StringSliceAdditionalSpecFns};

use crate::error::FirewallError;
use crate::support::{
    new_rule_map, rule_map_contains, rule_map_get, rule_map_ids, rule_map_insert, rule_map_remove, rule_table,
    RuleMap,
};

verus! {

/// Whether a rule accepts any source or one address only.
#[derive(Clone, Copy, Debug, PartialEq, Eq, Structural)]
pub enum FirewallType {
    Open,
    PartiallyClosed,
}

/// An accept rule for one service's UDP port.
#[derive(Debug)]
pub struct FirewallRule {
    pub port: u16,
    pub rule_type: FirewallType,
    pub handle: String,
    pub ip_address: Option<String>,
}

impl FirewallRule {
    pub fn new(port: u16, rule_type: FirewallType, handle: String) -> (r: FirewallRule)
        ensures
            r.port == port,
            r.rule_type == rule_type,
            r.handle@ == handle@,
            r.ip_address is None,
    {
        FirewallRule { port, rule_type, handle, ip_address: None }
    }
}

/// The rules opened for running services, by championship id. The nft
/// commands themselves are run by the caller; this table records their outcome.
pub struct FirewallService {
    rules: RuleMap,
}

impl FirewallService {
    pub closed spec fn view(&self) -> Map<i32, FirewallRule> {
        rule_table(self.rules)
    }

    pub fn new() -> (r: FirewallService)
        ensures
            r@.dom() == Set::<i32>::empty(),
    {
        FirewallService { rules: new_rule_map() }
    }

    pub fn rule_exists(&self, id: i32) -> (r: bool)
        ensures
            r == self@.contains_key(id),
    {
        rule_map_contains(&self.rules, id)
    }

    /// The rule of `id`, if it has one.
    pub fn rule(&self, id: i32) -> (r: Option<&FirewallRule>)
        ensures
            r == (if self@.contains_key(id) {
                Some(&self@[id])
            } else {
                None
            }),
    {
        rule_map_get(&self.rules, id)
    }

    /// Records the rule opened for `id` on `port`; `RuleExists` when `id` has one.
    pub fn record_open(&mut self, id: i32, port: u16, handle: String) -> (r: Result<(), FirewallError>)
        ensures
            old(self)@.contains_key(id) ==> r == Err::<(), FirewallError>(FirewallError::RuleExists)
                && final(self)@ == old(self)@,
            !old(self)@.contains_key(id) ==> r is Ok && final(self)@.dom() == old(self)@.dom().insert(id)
                && final(self)@[id].port == port && final(self)@[id].rule_type == FirewallType::Open
                && final(self)@[id].handle@ == handle@ && final(self)@[id].ip_address is None
                && forall|k: i32| k != id && old(self)@.contains_key(k) ==> #[trigger] final(self)@[k] == old(self)@[k],
    {
        if rule_map_contains(&self.rules, id) {
            return Err(FirewallError::RuleExists);
        }
        rule_map_insert(&mut self.rules, id, FirewallRule::new(port, FirewallType::Open, handle));
        Ok(())
    }

    /// Narrows the rule of `id` to source `ip_address`, under its new handle;
    /// `RuleNotFound` when `id` has none. Hands back the port.
    pub fn record_restrict(&mut self, id: i32, ip_address: String, handle: String) -> (r: Result<u16, FirewallError>)
        ensures
            !old(self)@.contains_key(id) ==> r == Err::<u16, FirewallError>(FirewallError::RuleNotFound)
                && final(self)@ == old(self)@,
            old(self)@.contains_key(id) ==> r == Ok::<u16, FirewallError>(old(self)@[id].port)
                && final(self)@.dom() == old(self)@.dom()
                && final(self)@[id].port == old(self)@[id].port
                && final(self)@[id].rule_type == FirewallType::PartiallyClosed
                && final(self)@[id].handle@ == handle@
                && (final(self)@[id].ip_address matches Some(ip) && ip@ == ip_address@)
                && forall|k: i32| k != id && old(self)@.contains_key(k) ==> #[trigger] final(self)@[k] == old(self)@[k],
    {
        match rule_map_remove(&mut self.rules, id) {
            None => Err(FirewallError::RuleNotFound),
            Some(rule) => {
                let port = rule.port;
                let narrowed = FirewallRule {
                    port,
                    rule_type: FirewallType::PartiallyClosed,
                    handle,
                    ip_address: Some(ip_address),
                };
                rule_map_insert(&mut self.rules, id, narrowed);
                proof {
                    assert(self@.dom() =~= old(self)@.dom());
                }
                Ok(port)
            },
        }
    }

    /// Records the outcome of deleting the rule of `id`: when the delete
    /// succeeded the rule is forgotten and handed back; when it failed the rule
    /// stays recorded and `ExecutionError` is returned. `RuleNotFound` when `id`
    /// has no rule.
    pub fn record_close(&mut self, id: i32, deleted: bool) -> (r: Result<FirewallRule, FirewallError>)
        ensures
            !old(self)@.contains_key(id) ==> (r matches Err(FirewallError::RuleNotFound))
                && final(self)@ == old(self)@,
            old(self)@.contains_key(id) && !deleted ==> (r matches Err(FirewallError::ExecutionError))
                && final(self)@ == old(self)@,
            old(self)@.contains_key(id) && deleted ==> (r matches Ok(rule) && rule == old(self)@[id])
                && final(self)@ == old(self)@.remove(id),
    {
        if !rule_map_contains(&self.rules, id) {
            return Err(FirewallError::RuleNotFound);
        }
        if !deleted {
            return Err(FirewallError::ExecutionError);
        }
        match rule_map_remove(&mut self.rules, id) {
            None => Err(FirewallError::RuleNotFound),
            Some(rule) => Ok(rule),
        }
    }

    /// The ids that hold a rule, each once.
    pub fn rule_ids(&self) -> (r: Vec<i32>)
        ensures
            r@.to_set() == self@.dom(),
            r@.no_duplicates(),
    {
        rule_map_ids(&self.rules)
    }
}

pub open spec fn is_space(c: u8) -> bool {
    c == 0x20 || c == 0x09 || c == 0x0a || c == 0x0b || c == 0x0c || c == 0x0d
}

pub open spec fn is_digit(c: u8) -> bool {
    0x30 <= c <= 0x39
}

/// Length of the run of white space that starts at `i`.
pub open spec fn space_run(s: Seq<u8>, i: int) -> int
    decreases s.len() - i,
{
    if 0 <= i < s.len() && is_space(s[i]) {
        1 + space_run(s, i + 1)
    } else {
        0
    }
}

/// Length of the run of digits that starts at `i`.
pub open spec fn digit_run(s: Seq<u8>, i: int) -> int
    decreases s.len() - i,
{
    if 0 <= i < s.len() && is_digit(s[i]) {
        1 + digit_run(s, i + 1)
    } else {
        0
    }
}

/// `w` stands in `s` at `i`.
pub open spec fn word_at(s: Seq<u8>, i: int, w: Seq<u8>) -> bool {
    0 <= i && i + w.len() <= s.len() && s.subrange(i, i + w.len()) == w
}

pub open spec fn handle_word() -> Seq<u8> {
    seq![0x68u8, 0x61, 0x6e, 0x64, 0x6c, 0x65]
}

/// The digits of `<p> # handle <digits>` read at `i` (white space of at least
/// one character between the parts), as a range of `s`.
pub open spec fn handle_at(s: Seq<u8>, p: Seq<u8>, i: int) -> Option<(int, int)> {
    if !word_at(s, i, p) {
        None
    } else {
        let a = i + p.len();
        let w1 = space_run(s, a);
        let b = a + w1;
        if w1 == 0 || !(b < s.len() && s[b] == 0x23u8) {
            None
        } else {
            let w2 = space_run(s, b + 1);
            let c = b + 1 + w2;
            if w2 == 0 || !word_at(s, c, handle_word()) {
                None
            } else {
                let w3 = space_run(s, c + 6);
                let d = c + 6 + w3;
                let n = digit_run(s, d);
                if w3 == 0 || n == 0 {
                    None
                } else {
                    Some((d, d + n))
                }
            }
        }
    }
}

/// The leftmost match at or after `i`.
pub open spec fn first_handle(s: Seq<u8>, p: Seq<u8>, i: int) -> Option<(int, int)>
    decreases s.len() + 1 - i,
{
    if i < 0 || i > s.len() {
        None
    } else {
        match handle_at(s, p, i) {
            Some(r) => Some(r),
            None => first_handle(s, p, i + 1),
        }
    }
}

fn space_len(s: &[u8], i: usize) -> (r: usize)
    requires
        i <= s@.len(),
    ensures
        r == space_run(s@, i as int),
        i + r <= s@.len(),
{
    let mut j = i;
    while j < s.len() && (s[j] == 0x20 || s[j] == 0x09 || s[j] == 0x0a || s[j] == 0x0b || s[j]
        == 0x0c || s[j] == 0x0d)
        invariant
            i <= j <= s@.len(),
            space_run(s@, i as int) == (j - i) + space_run(s@, j as int),
        decreases s@.len() - j,
    {
        j = j + 1;
    }
    j - i
}

fn digit_len(s: &[u8], i: usize) -> (r: usize)
    requires
        i <= s@.len(),
    ensures
        r == digit_run(s@, i as int),
        i + r <= s@.len(),
        forall|m: int| i <= m < i + r ==> is_digit(#[trigger] s@[m]),
{
    let mut j = i;
    while j < s.len() && 0x30 <= s[j] && s[j] <= 0x39
        invariant
            i <= j <= s@.len(),
            digit_run(s@, i as int) == (j - i) + digit_run(s@, j as int),
            forall|m: int| i <= m < j ==> is_digit(#[trigger] s@[m]),
        decreases s@.len() - j,
    {
        j = j + 1;
    }
    j - i
}

fn word_at_exec(s: &[u8], i: usize, w: &[u8]) -> (r: bool)
    ensures
        r == word_at(s@, i as int, w@),
{
    let n = s.len();
    if i > n || w.len() > n - i {
        return false;
    }
    let mut k: usize = 0;
    while k < w.len()
        invariant
            n == s@.len(),
            i + w@.len() <= n,
            k <= w@.len(),
            forall|m: int| 0 <= m < k ==> s@[i + m] == w@[m],
        decreases w@.len() - k,
    {
        if s[i + k] != w[k] {
            assert(s@.subrange(i as int, i + w@.len())[k as int] != w@[k as int]);
            return false;
        }
        k = k + 1;
    }
    assert(s@.subrange(i as int, i + w@.len()) =~= w@);
    true
}

fn handle_at_exec(s: &[u8], p: &[u8], i: usize) -> (r: Option<(usize, usize)>)
    requires
        i <= s@.len(),
    ensures
        match handle_at(s@, p@, i as int) {
            None => r is None,
            Some((a, b)) => r matches Some((x, y)) && x == a && y == b,
        },
        r matches Some((x, y)) ==> x <= y <= s@.len() && forall|m: int|
            x <= m < y ==> is_digit(#[trigger] s@[m]),
{
    let n = s.len();
    if !word_at_exec(s, i, p) {
        return None;
    }
    assert(i + p@.len() <= n);
    let a = i + p.len();
    let w1 = space_len(s, a);
    let b = a + w1;
    if w1 == 0 || !(b < s.len() && s[b] == 0x23) {
        return None;
    }
    let w2 = space_len(s, b + 1);
    let c = b + 1 + w2;
    let word: [u8; 6] = [0x68, 0x61, 0x6e, 0x64, 0x6c, 0x65];
    assert(word@ =~= handle_word());
    if w2 == 0 || !word_at_exec(s, c, word.as_slice()) {
        return None;
    }
    let w3 = space_len(s, c + 6);
    let d = c + 6 + w3;
    let n = digit_len(s, d);
    if w3 == 0 || n == 0 {
        return None;
    }
    Some((d, d + n))
}

/// The character of an ASCII digit byte.
pub open spec fn digit_char(c: u8) -> char {
    if c == 0x30 {
        '0'
    } else if c == 0x31 {
        '1'
    } else if c == 0x32 {
        '2'
    } else if c == 0x33 {
        '3'
    } else if c == 0x34 {
        '4'
    } else if c == 0x35 {
        '5'
    } else if c == 0x36 {
        '6'
    } else if c == 0x37 {
        '7'
    } else if c == 0x38 {
        '8'
    } else {
        '9'
    }
}

/// The text of the digits `s[a..b]`.
pub open spec fn digits_text(s: Seq<u8>, a: int, b: int) -> Seq<char> {
    s.subrange(a, b).map_values(|c: u8| digit_char(c))
}

/// The handle nft printed for the rule `search_pattern`: the digits of the
/// leftmost `<search_pattern> # handle <digits>` of `ruleset`, white space
/// being ASCII as nft prints it. `RuleNotFound` when there is none.
pub fn extract_handle_from_ruleset(ruleset: &str, search_pattern: &str) -> (r: Result<
    String,
    FirewallError,
>)
    ensures
        match first_handle(ruleset.spec_bytes(), search_pattern.spec_bytes(), 0) {
            None => r matches Err(FirewallError::RuleNotFound),
            Some((a, b)) => r matches Ok(h) && h@ == digits_text(ruleset.spec_bytes(), a, b),
        },
{
    let s = ruleset.as_bytes();
    let p = search_pattern.as_bytes();
    let n = s.len();
    let mut i: usize = 0;
    loop
        invariant
            s@ == ruleset.spec_bytes(),
            p@ == search_pattern.spec_bytes(),
            n == s@.len(),
            i <= n,
            first_handle(s@, p@, 0) == first_handle(s@, p@, i as int),
        decreases n - i,
    {
        match handle_at_exec(s, p, i) {
            Some((a, b)) => {
                return Ok(digits_to_string(s, a, b));
            },
            None => {},
        }
        if i == n {
            assert(first_handle(s@, p@, i + 1) is None);
            return Err(FirewallError::RuleNotFound);
        }
        i = i + 1;
    }
}

fn digit_str(c: u8) -> (r: &'static str)
    requires
        is_digit(c),
    ensures
        r@ == seq![digit_char(c)],
{
    proof {
        reveal_strlit("0");
        reveal_strlit("1");
        reveal_strlit("2");
        reveal_strlit("3");
        reveal_strlit("4");
        reveal_strlit("5");
        reveal_strlit("6");
        reveal_strlit("7");
        reveal_strlit("8");
        reveal_strlit("9");
    }
    if c == 0x30 {
        "0"
    } else if c == 0x31 {
        "1"
    } else if c == 0x32 {
        "2"
    } else if c == 0x33 {
        "3"
    } else if c == 0x34 {
        "4"
    } else if c == 0x35 {
        "5"
    } else if c == 0x36 {
        "6"
    } else if c == 0x37 {
        "7"
    } else if c == 0x38 {
        "8"
    } else {
        "9"
    }
}

fn digits_to_string(s: &[u8], a: usize, b: usize) -> (r: String)
    requires
        a <= b <= s@.len(),
        forall|m: int| a <= m < b ==> is_digit(#[trigger] s@[m]),
    ensures
        r@ == digits_text(s@, a as int, b as int),
{
    let mut out = String::new();
    let mut k = a;
    while k < b
        invariant
            a <= k <= b <= s@.len(),
            forall|m: int| a <= m < b ==> is_digit(#[trigger] s@[m]),
            out@ == digits_text(s@, a as int, k as int),
        decreases b - k,
    {
        assert(is_digit(s@[k as int]));
        out.append(digit_str(s[k]));
        k = k + 1;
        assert(out@ =~= digits_text(s@, a as int, k as int));
    }
    out
}

} // verus!
