//! Resolving a selector such as `1,kitchen,device4` to device positions.
use crate::alias::AliasTable;
use crate::device::{index_of_id, Device, DeviceList};
use crate::number::{all_digits, digits_value};
use crate::text::{digit, split_fields, split_spec};
use vstd::prelude::*;
use vstd::string::*;

verus! {

/// Why a selector does not resolve.
#[derive(Clone, Debug, PartialEq, Eq)]
pub enum SelectorError {
    /// The token is neither an alias, a device number nor a device ID.
    NotADevice(String),
    /// The alias expands into itself, directly or through other aliases.
    AliasLoop(String),
}

/// The view of an error: whether it is an alias loop, and its token.
pub open spec fn selector_error_view(e: SelectorError) -> (bool, Seq<char>) {
    match e {
        SelectorError::NotADevice(t) => (false, t@),
        SelectorError::AliasLoop(t) => (true, t@),
    }
}

/// The number that `token` spells as `usize::from_str` reads it: `+?[0-9]+`.
pub open spec fn number_of(token: Seq<char>) -> Option<int> {
    let digits = if token.len() > 0 && token[0] == '+' {
        token.drop_first()
    } else {
        token
    };
    if digits.len() > 0 && all_digits(digits) {
        Some(digits_value(digits) as int)
    } else {
        None
    }
}

/// The device position that `token` names among `devices`: a number from
/// `1` to the count names the device at that place, anything else an ID.
pub open spec fn token_index(token: Seq<char>, devices: Seq<Device>) -> Option<int> {
    match number_of(token) {
        Some(n) if 1 <= n <= devices.len() => Some(n - 1),
        _ => index_of_id(devices, token),
    }
}

/// The positions that `tokens` name, in order and with repeats, each alias
/// replaced by what its text names; an alias may nest at most `depth` deep.
pub open spec fn expand_tokens(
    tokens: Seq<Seq<char>>,
    aliases: Map<Seq<char>, Seq<char>>,
    devices: Seq<Device>,
    depth: nat,
) -> Result<Seq<int>, (bool, Seq<char>)>
    decreases depth, tokens.len(),
{
    if tokens.len() == 0 {
        Ok(Seq::empty())
    } else {
        match expand_tokens(tokens.drop_last(), aliases, devices, depth) {
            Err(e) => Err(e),
            Ok(before) => {
                let t = tokens.last();
                if aliases.contains_key(t) {
                    if depth == 0 {
                        Err((true, t))
                    } else {
                        match expand_tokens(
                            split_spec(aliases[t], ','),
                            aliases,
                            devices,
                            (depth - 1) as nat,
                        ) {
                            Ok(inner) => Ok(before + inner),
                            Err(e) => Err(e),
                        }
                    }
                } else {
                    match token_index(t, devices) {
                        Some(i) => Ok(before.push(i)),
                        None => Err((false, t)),
                    }
                }
            }
        }
    }
}

/// The positions of `s` as integers.
pub open spec fn as_ints(s: Seq<usize>) -> Seq<int> {
    s.map_values(|i: usize| i as int)
}

/// `s` with every repeat of an earlier element removed.
pub open spec fn dedup(s: Seq<int>) -> Seq<int>
    decreases s.len(),
{
    if s.len() == 0 {
        s
    } else if s.drop_last().contains(s.last()) {
        dedup(s.drop_last())
    } else {
        dedup(s.drop_last()).push(s.last())
    }
}

/// The devices that the selector `text` names, in order of first mention.
pub open spec fn resolve_spec(
    text: Seq<char>,
    aliases: Map<Seq<char>, Seq<char>>,
    devices: Seq<Device>,
    depth: nat,
) -> Result<Seq<int>, (bool, Seq<char>)> {
    match expand_tokens(split_spec(text, ','), aliases, devices, depth) {
        Ok(s) => Ok(dedup(s)),
        Err(e) => Err(e),
    }
}

/// Once a prefix of the tokens fails, every longer run of them fails the same way.
proof fn lemma_error_extends(
    tokens: Seq<Seq<char>>,
    aliases: Map<Seq<char>, Seq<char>>,
    devices: Seq<Device>,
    depth: nat,
    m: int,
)
    requires
        0 <= m <= tokens.len(),
        expand_tokens(tokens.subrange(0, m), aliases, devices, depth) is Err,
    ensures
        expand_tokens(tokens, aliases, devices, depth) == expand_tokens(
            tokens.subrange(0, m),
            aliases,
            devices,
            depth,
        ),
    decreases tokens.len(),
{
    if m == tokens.len() {
        assert(tokens.subrange(0, m) =~= tokens);
    } else {
        assert(tokens.drop_last().subrange(0, m) =~= tokens.subrange(0, m));
        lemma_error_extends(tokens.drop_last(), aliases, devices, depth, m);
    }
}

/// The number `token` spells, when it is a number from `1` to `count`.
fn device_number(token: &str, count: usize) -> (r: Option<usize>)
    ensures
        match r {
            Some(i) => number_of(token@) == Some(i as int) && 1 <= i <= count,
            None => number_of(token@) is None || number_of(token@)->0 < 1 || number_of(token@)->0
                > count,
        },
{
    let n = token.unicode_len();
    let start: usize = if n > 0 && token.get_char(0) == '+' { 1 } else { 0 };
    let ghost digits = token@.subrange(start as int, n as int);
    assert(digits =~= if n > 0 && token@[0] == '+' { token@.drop_first() } else { token@ });
    if start == n {
        return None;
    }
    let mut value: u128 = 0;
    let mut over = false;
    let mut i: usize = start;
    while i < n
        invariant
            start <= i <= n == token@.len(),
            digits == token@.subrange(start as int, n as int),
            digits == if token@.len() > 0 && token@[0] == '+' { token@.drop_first() } else { token@ },
            all_digits(token@.subrange(start as int, i as int)),
            !over ==> value == digits_value(token@.subrange(start as int, i as int)) && value <= count,
            over ==> digits_value(token@.subrange(start as int, i as int)) > count,
        decreases n - i,
    {
        let c = token.get_char(i);
        if !digit(c) {
            assert(digits[i - start] == c);
            assert(!crate::text::is_ascii_digit(digits[i - start]));
            assert(!all_digits(digits));
            return None;
        }
        let ghost p = token@.subrange(start as int, i as int);
        let ghost q = token@.subrange(start as int, i + 1);
        assert(q.drop_last() =~= p);
        assert(q.last() == c);
        assert(all_digits(q)) by {
            assert forall|j: int| 0 <= j < q.len() implies crate::text::is_ascii_digit(#[trigger] q[j]) by {
                if j < p.len() {
                    assert(q[j] == p[j]);
                }
            }
        }
        if !over {
            value = value * 10 + (c as u32 - '0' as u32) as u128;
            if value > count as u128 {
                over = true;
            }
        }
        i = i + 1;
    }
    assert(token@.subrange(start as int, n as int) == digits);
    if over || value == 0 {
        return None;
    }
    Some(value as usize)
}

/// Resolves one token that is not an alias.
fn token_position(token: &str, devices: &DeviceList) -> (r: Option<usize>)
    ensures
        match r {
            Some(i) => token_index(token@, devices@) == Some(i as int),
            None => token_index(token@, devices@) is None,
        },
{
    match device_number(token, devices.len()) {
        Some(n) => Some(n - 1),
        None => devices.index_by_device_id(token),
    }
}

/// Appends the positions that the comma-separated `text` names to `out`.
fn expand_into(
    text: &str,
    aliases: &AliasTable,
    devices: &DeviceList,
    depth: usize,
    out: &mut Vec<usize>,
) -> (r: Result<(), SelectorError>)
    requires
        aliases.wf(),
    ensures
        match expand_tokens(split_spec(text@, ','), aliases@, devices@, depth as nat) {
            Ok(s) => r is Ok && as_ints(final(out)@) == as_ints(old(out)@) + s,
            Err(e) => r matches Err(err) && selector_error_view(err) == e,
        },
    decreases depth,
{
    let tokens = split_fields(text, ',', false);
    let ghost ts = tokens@.map_values(|f: String| f@);
    let ghost start = as_ints(out@);
    let mut k: usize = 0;
    while k < tokens.len()
        invariant
            aliases.wf(),
            ts == tokens@.map_values(|f: String| f@),
            ts == split_spec(text@, ','),
            k <= tokens@.len(),
            expand_tokens(ts.subrange(0, k as int), aliases@, devices@, depth as nat) matches Ok(s)
                && as_ints(out@) == start + s,
        decreases tokens@.len() - k,
    {
        let ghost pre = ts.subrange(0, k as int);
        let ghost next = ts.subrange(0, k + 1);
        assert(next.drop_last() =~= pre);
        assert(next.last() == tokens@[k as int]@);
        let ghost so_far = as_ints(out@);
        let ghost s = expand_tokens(pre, aliases@, devices@, depth as nat)->Ok_0;
        let token = tokens[k].as_str();
        if aliases.contains(token) {
            if depth == 0 {
                proof {
                    lemma_error_extends(ts, aliases@, devices@, depth as nat, k + 1);
                }
                return Err(SelectorError::AliasLoop(crate::text::to_string(token)));
            }
            let value = aliases.get(token).unwrap();
            match expand_into(value.as_str(), aliases, devices, depth - 1, out) {
                Ok(()) => {
                    let ghost inner = expand_tokens(split_spec(value@, ','), aliases@, devices@, (depth - 1) as nat)->Ok_0;
                    assert(as_ints(out@) =~= start + (s + inner));
                },
                Err(e) => {
                    proof {
                        lemma_error_extends(ts, aliases@, devices@, depth as nat, k + 1);
                    }
                    return Err(e);
                },
            }
        } else {
            match token_position(token, devices) {
                Some(i) => {
                    out.push(i);
                    assert(as_ints(out@) =~= so_far.push(i as int));
                    assert(as_ints(out@) =~= start + s.push(i as int));
                },
                None => {
                    proof {
                        lemma_error_extends(ts, aliases@, devices@, depth as nat, k + 1);
                    }
                    return Err(SelectorError::NotADevice(crate::text::to_string(token)));
                },
            }
        }
        k = k + 1;
    }
    assert(ts.subrange(0, k as int) =~= ts);
    Ok(())
}

/// `s` without repeats, each position kept where it first occurs.
pub fn unique(s: &Vec<usize>) -> (r: Vec<usize>)
    ensures
        as_ints(r@) == dedup(as_ints(s@)),
{
    let mut r: Vec<usize> = Vec::new();
    let mut k: usize = 0;
    while k < s.len()
        invariant
            k <= s@.len(),
            as_ints(r@) == dedup(as_ints(s@).subrange(0, k as int)),
            forall|x: int|
                #![trigger as_ints(r@).contains(x)]
                #![trigger as_ints(s@).subrange(0, k as int).contains(x)]
                as_ints(r@).contains(x) <==> as_ints(s@).subrange(0, k as int).contains(x),
        decreases s@.len() - k,
    {
        let ghost all = as_ints(s@);
        let ghost pre = all.subrange(0, k as int);
        let ghost next = all.subrange(0, k + 1);
        assert(next.drop_last() =~= pre);
        assert(next.last() == s@[k as int] as int);
        let x = s[k];
        let mut seen = false;
        let mut j: usize = 0;
        while j < r.len()
            invariant
                j <= r@.len(),
                seen == exists|m: int| 0 <= m < j && r@[m] == x,
            decreases r@.len() - j,
        {
            if r[j] == x {
                seen = true;
            }
            j = j + 1;
        }
        let ghost before = as_ints(r@);
        let ghost xi = x as int;
        assert(next =~= pre.push(xi));
        if seen {
            proof {
                let m = choose|m: int| 0 <= m < r@.len() && r@[m] == x;
                assert(before[m] == xi);
                assert(before.contains(xi));
            }
        } else {
            assert forall|m: int| 0 <= m < before.len() implies before[m] != xi by {
                assert(r@[m] != x);
            }
            r.push(x);
            assert(as_ints(r@) =~= before.push(xi));
        }
        let ghost after = as_ints(r@);
        assert(before.len() <= after.len());
        assert(forall|m: int| 0 <= m < before.len() ==> after[m] == before[m]);
        assert(after.len() > before.len() ==> after[before.len() as int] == xi);
        assert forall|y: int|
            #![trigger after.contains(y)]
            #![trigger next.contains(y)]
            after.contains(y) <==> next.contains(y) by {
            if next.contains(y) {
                let m = choose|m: int| 0 <= m < next.len() && next[m] == y;
                if m < pre.len() {
                    assert(pre[m] == y);
                    assert(pre.contains(y));
                    assert(before.contains(y));
                    let m2 = choose|m2: int| 0 <= m2 < before.len() && before[m2] == y;
                    assert(after[m2] == y);
                } else {
                    assert(y == xi);
                    if seen {
                        let m2 = choose|m2: int| 0 <= m2 < before.len() && before[m2] == y;
                        assert(after[m2] == y);
                    } else {
                        assert(after[before.len() as int] == y);
                    }
                }
            }
            if after.contains(y) {
                let m = choose|m: int| 0 <= m < after.len() && after[m] == y;
                if m < before.len() {
                    assert(before[m] == y);
                    assert(before.contains(y));
                    assert(pre.contains(y));
                    let m3 = choose|m3: int| 0 <= m3 < pre.len() && pre[m3] == y;
                    assert(next[m3] == y);
                } else {
                    assert(y == xi);
                    assert(next[k as int] == y);
                }
            }
        }
        assert(dedup(next) == if pre.contains(xi) { dedup(pre) } else { dedup(pre).push(xi) });
        k = k + 1;
    }
    assert(as_ints(s@).subrange(0, k as int) =~= as_ints(s@));
    r
}

/// Every position that tokens name is the position of a device.
#[verifier::rlimit(50)]
pub proof fn lemma_expand_in_range(
    tokens: Seq<Seq<char>>,
    aliases: Map<Seq<char>, Seq<char>>,
    devices: Seq<Device>,
    depth: nat,
)
    ensures
        expand_tokens(tokens, aliases, devices, depth) matches Ok(s) ==> forall|i: int|
            0 <= i < s.len() ==> 0 <= #[trigger] s[i] < devices.len(),
    decreases depth, tokens.len(),
{
    if tokens.len() == 0 {
        return;
    }
    let prev = expand_tokens(tokens.drop_last(), aliases, devices, depth);
    lemma_expand_in_range(tokens.drop_last(), aliases, devices, depth);
    if prev is Err {
        return;
    }
    let before = prev->Ok_0;
    let t = tokens.last();
    if aliases.contains_key(t) {
        if depth > 0 {
            let inner = expand_tokens(split_spec(aliases[t], ','), aliases, devices, (depth - 1) as nat);
            lemma_expand_in_range(split_spec(aliases[t], ','), aliases, devices, (depth - 1) as nat);
            if let Ok(q) = inner {
                let all = before + q;
                assert(expand_tokens(tokens, aliases, devices, depth) == Ok::<Seq<int>, (bool, Seq<char>)>(all));
                assert forall|i: int| 0 <= i < all.len() implies 0 <= #[trigger] all[i] < devices.len() by {
                    if i < before.len() {
                        assert(all[i] == before[i]);
                    } else {
                        assert(all[i] == q[i - before.len()]);
                    }
                }
            }
        }
    } else if let Some(k) = token_index(t, devices) {
        crate::device::lemma_index_of_id(devices, t);
        assert(0 <= k < devices.len());
        let all = before.push(k);
        assert(expand_tokens(tokens, aliases, devices, depth) == Ok::<Seq<int>, (bool, Seq<char>)>(all));
        assert forall|i: int| 0 <= i < all.len() implies 0 <= #[trigger] all[i] < devices.len() by {
            if i < before.len() {
                assert(all[i] == before[i]);
            } else {
                assert(all[i] == k);
            }
        }
    }
}

/// `dedup(s)` holds what `s` holds, each element once.
pub proof fn lemma_dedup(s: Seq<int>)
    ensures
        forall|x: int| #[trigger] dedup(s).contains(x) <==> s.contains(x),
        forall|i: int, j: int| 0 <= i < j < dedup(s).len() ==> dedup(s)[i] != dedup(s)[j],
    decreases s.len(),
{
    if s.len() > 0 {
        let p = s.drop_last();
        lemma_dedup(p);
        assert forall|x: int| #[trigger] s.contains(x) <==> (p.contains(x) || x == s.last()) by {
            if s.contains(x) {
                let i = choose|i: int| 0 <= i < s.len() && s[i] == x;
                if i < p.len() {
                    assert(p[i] == x);
                }
            }
            if p.contains(x) {
                let i = choose|i: int| 0 <= i < p.len() && p[i] == x;
                assert(s[i] == x);
            }
            if x == s.last() {
                assert(s[s.len() - 1] == x);
            }
        }
        let d = dedup(p);
        if !p.contains(s.last()) {
            assert forall|x: int| #[trigger] d.push(s.last()).contains(x) <==> (d.contains(x) || x == s.last()) by {
                if d.push(s.last()).contains(x) {
                    let i = choose|i: int| 0 <= i < d.len() + 1 && d.push(s.last())[i] == x;
                    if i < d.len() {
                        assert(d[i] == x);
                    }
                }
                if d.contains(x) {
                    let i = choose|i: int| 0 <= i < d.len() && d[i] == x;
                    assert(d.push(s.last())[i] == x);
                }
                if x == s.last() {
                    assert(d.push(s.last())[d.len() as int] == x);
                }
            }
            assert forall|i: int, j: int| 0 <= i < j < d.len() + 1 implies d.push(s.last())[i] != d.push(
                s.last(),
            )[j] by {
                if j == d.len() {
                    assert(d.push(s.last())[i] == d[i]);
                    assert(d.contains(d[i]));
                }
            }
        }
    }
}

/// The position of the first `x` in `s`, or the length of `s`.
pub open spec fn first_index(s: Seq<int>, x: int) -> int
    decreases s.len(),
{
    if s.len() == 0 || s[0] == x {
        0
    } else {
        1 + first_index(s.drop_first(), x)
    }
}

proof fn lemma_first_index(s: Seq<int>, x: int)
    ensures
        0 <= first_index(s, x) <= s.len(),
        s.contains(x) <==> first_index(s, x) < s.len(),
        first_index(s, x) < s.len() ==> s[first_index(s, x)] == x,
        forall|i: int| 0 <= i < first_index(s, x) ==> s[i] != x,
    decreases s.len(),
{
    if s.len() > 0 && s[0] != x {
        lemma_first_index(s.drop_first(), x);
        assert forall|i: int| 0 <= i < first_index(s, x) implies s[i] != x by {
            if i > 0 {
                assert(s[i] == s.drop_first()[i - 1]);
            }
        }
        if s.contains(x) {
            let i = choose|i: int| 0 <= i < s.len() && s[i] == x;
            assert(s.drop_first()[i - 1] == x);
        }
        if first_index(s, x) < s.len() {
            assert(s.contains(x)) by {
                assert(s[first_index(s, x)] == x);
            }
        }
    } else if s.len() > 0 {
        assert(s.contains(x)) by {
            assert(s[0] == x);
        }
    }
}

/// The first `x` in `s` is where it is in any longer sequence that starts with `s`.
proof fn lemma_first_index_prefix(s: Seq<int>, t: Seq<int>, x: int)
    requires
        s.contains(x),
        s.len() <= t.len(),
        t.subrange(0, s.len() as int) == s,
    ensures
        first_index(t, x) == first_index(s, x),
{
    lemma_first_index(s, x);
    lemma_first_index(t, x);
    let i = first_index(s, x);
    assert(t[i] == s[i]);
    assert forall|j: int| 0 <= j < i implies t[j] != x by {
        assert(t[j] == s[j]);
    }
}

/// Repeats are dropped in order of first mention: of two positions that
/// `dedup(s)` keeps, the earlier one was mentioned first in `s`.
pub proof fn lemma_dedup_keeps_first_mention_order(s: Seq<int>, i: int, j: int)
    requires
        0 <= i < j < dedup(s).len(),
    ensures
        first_index(s, dedup(s)[i]) < first_index(s, dedup(s)[j]),
    decreases s.len(),
{
    let p = s.drop_last();
    let x = s.last();
    let d = dedup(p);
    lemma_dedup(p);
    lemma_dedup(s);
    assert(p =~= s.subrange(0, p.len() as int));
    if p.contains(x) {
        lemma_dedup_keeps_first_mention_order(p, i, j);
        assert(d.contains(d[i]) && d.contains(d[j]));
        lemma_first_index_prefix(p, s, d[i]);
        lemma_first_index_prefix(p, s, d[j]);
    } else {
        if j < d.len() {
            lemma_dedup_keeps_first_mention_order(p, i, j);
            assert(dedup(s)[i] == d[i] && dedup(s)[j] == d[j]);
            assert(d.contains(d[i]) && d.contains(d[j]));
            lemma_first_index_prefix(p, s, d[i]);
            lemma_first_index_prefix(p, s, d[j]);
        } else {
            assert(dedup(s)[j] == x);
            assert(dedup(s)[i] == d[i]);
            assert(d.contains(d[i]));
            lemma_first_index_prefix(p, s, d[i]);
            lemma_first_index(p, d[i]);
            lemma_first_index(s, x);
            lemma_first_index(p, x);
            assert forall|m: int| 0 <= m < p.len() implies s[m] != x by {
                assert(s[m] == p[m]);
            }
            assert(s[p.len() as int] == x);
        }
    }
}

/// Resolves the selector `text` to device positions, in order of first
/// mention and without repeats. Aliases nest at most as deep as there are
/// aliases, so an alias that expands into itself is reported, not followed.
pub fn resolve(text: &str, aliases: &AliasTable, devices: &DeviceList) -> (r: Result<Vec<usize>, SelectorError>)
    requires
        aliases.wf(),
    ensures
        match resolve_spec(text@, aliases@, devices@, aliases.count()) {
            Ok(s) => r is Ok && as_ints(r->Ok_0@) == s,
            Err(e) => r is Err && selector_error_view(r->Err_0) == e,
        },
        r is Ok ==> forall|i: int| 0 <= i < r->Ok_0@.len() ==> #[trigger] r->Ok_0@[i] < devices@.len(),
        r is Ok ==> forall|i: int, j: int| 0 <= i < j < r->Ok_0@.len() ==> r->Ok_0@[i] != r->Ok_0@[j],
{
    proof {
        lemma_expand_in_range(split_spec(text@, ','), aliases@, devices@, aliases.count());
        if let Ok(s) = expand_tokens(split_spec(text@, ','), aliases@, devices@, aliases.count()) {
            lemma_dedup(s);
            assert forall|x: int| #[trigger] dedup(s).contains(x) implies 0 <= x < devices@.len() by {
                let i = choose|i: int| 0 <= i < s.len() && s[i] == x;
            }
        }
    }
    let mut out: Vec<usize> = Vec::new();
    assert(as_ints(out@) =~= Seq::<int>::empty());
    match expand_into(text, aliases, devices, aliases.len(), &mut out) {
        Ok(()) => {
            assert(as_ints(out@) =~= Seq::<int>::empty() + as_ints(out@));
            let v = unique(&out);
            proof {
                let d = as_ints(v@);
                assert forall|i: int| 0 <= i < v@.len() implies #[trigger] v@[i] < devices@.len() by {
                    assert(d[i] == v@[i] as int);
                    assert(d.contains(d[i]));
                }
                assert forall|i: int, j: int| 0 <= i < j < v@.len() implies v@[i] != v@[j] by {
                    assert(d[i] == v@[i] as int && d[j] == v@[j] as int);
                }
            }
            Ok(v)
        },
        Err(e) => Err(e),
    }
}

} // verus!
