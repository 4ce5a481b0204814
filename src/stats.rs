//! Request statistics: one row per handled request, and the aggregate
//! report over all rows.

use vstd::prelude::*;

verus! {

/// One handled request, as the statistics store keeps it.
pub struct RequestLog {
    pub ip_addr: String,
    pub os: String,
    /// Whether the client was the web configurator, not the desktop one.
    pub web: bool,
    pub hash: String,
    pub board: String,
    pub variant: String,
    pub layers: u32,
    pub container: String,
    pub success: bool,
    /// Milliseconds waited on the build; absent for requests that found the
    /// build already finished.
    pub build_duration: Option<i64>,
}

/// The aggregates of a set of request rows. Each count list holds every key
/// once, in order of first appearance, with the number of rows that have it.
pub struct StatsSummary {
    pub total_builds: usize,
    pub unique_builds: usize,
    pub unique_users: usize,
    pub total_layers: u128,
    pub total_build_ms: i128,
    pub os_counts: Vec<(String, usize)>,
    pub platform_counts: Vec<(String, usize)>,
    pub keyboard_counts: Vec<(String, usize)>,
    pub container_counts: Vec<(String, usize)>,
}

/// The characters of each string.
pub open spec fn views(s: Seq<String>) -> Seq<Seq<char>> {
    s.map_values(|x: String| x@)
}

/// How many times `k` occurs in `s`.
pub open spec fn count_in(s: Seq<Seq<char>>, k: Seq<char>) -> nat
    decreases s.len(),
{
    if s.len() == 0 {
        0
    } else {
        count_in(s.drop_last(), k) + if s.last() == k {
            1nat
        } else {
            0nat
        }
    }
}

/// The distinct elements of `s`, in order of first appearance.
pub open spec fn distinct_keys(s: Seq<Seq<char>>) -> Seq<Seq<char>>
    decreases s.len(),
{
    if s.len() == 0 {
        Seq::empty()
    } else {
        let prev = distinct_keys(s.drop_last());
        if prev.contains(s.last()) {
            prev
        } else {
            prev.push(s.last())
        }
    }
}

/// `t` lists the distinct elements of `s` in order of first appearance, each
/// with its number of occurrences.
pub open spec fn is_tally_of(t: Seq<(String, usize)>, s: Seq<Seq<char>>) -> bool {
    &&& t.len() == distinct_keys(s).len()
    &&& forall|j: int|
        0 <= j < t.len() ==> (#[trigger] t[j]).0@ == distinct_keys(s)[j] && t[j].1 == count_in(
            s,
            distinct_keys(s)[j],
        )
}

proof fn lemma_count_bound(s: Seq<Seq<char>>, k: Seq<char>)
    ensures
        count_in(s, k) <= s.len(),
    decreases s.len(),
{
    if s.len() > 0 {
        lemma_count_bound(s.drop_last(), k);
    }
}

/// The distinct keys of a sequence, each with its number of occurrences.
pub fn tally(keys: &Vec<String>) -> (r: Vec<(String, usize)>)
    ensures
        is_tally_of(r@, views(keys@)),
{
    let ghost all = views(keys@);
    let n = keys.len();
    let mut out: Vec<(String, usize)> = Vec::new();
    let mut i: usize = 0;
    assert(all.subrange(0, 0) =~= Seq::<Seq<char>>::empty());
    while i < n
        invariant
            n == keys@.len(),
            all == views(keys@),
            i <= n,
            is_tally_of(out@, all.subrange(0, i as int)),
        decreases n - i,
    {
        let ghost prefix = all.subrange(0, i as int);
        let ghost next = all.subrange(0, i + 1);
        assert(next.drop_last() =~= prefix);
        assert(next.last() == keys@[i as int]@);
        let ghost dk = distinct_keys(prefix);
        let key = &keys[i];
        let mut j: usize = 0;
        let mut found = false;
        while j < out.len() && !found
            invariant
                j <= out@.len(),
                is_tally_of(out@, prefix),
                dk == distinct_keys(prefix),
                found ==> j < out@.len() && dk[j as int] == key@,
                forall|k: int| 0 <= k < j ==> #[trigger] dk[k] != key@,
            decreases out@.len() - j + if found {
                0int
            } else {
                1int
            },
        {
            if out[j].0 == *key {
                found = true;
            } else {
                j = j + 1;
            }
        }
        if found {
            assert(dk[j as int] == key@);
            assert(dk.contains(key@));
            let c = out[j].1;
            proof {
                lemma_count_bound(prefix, key@);
            }
            let name = out[j].0.clone();
            out.set(j, (name, c + 1));
            assert forall|m: int| 0 <= m < out@.len() implies (#[trigger] out@[m]).0@ == distinct_keys(
                next,
            )[m] && out@[m].1 == count_in(next, distinct_keys(next)[m]) by {
                if m != j {
                    lemma_distinct_no_dup(prefix);
                    if m < j {
                        assert(dk[m] != dk[j as int]);
                    } else {
                        assert(dk[j as int] != dk[m]);
                    }
                }
            }
        } else {
            assert(!dk.contains(key@)) by {
                if dk.contains(key@) {
                    let k = choose|k: int| 0 <= k < dk.len() && dk[k] == key@;
                    assert(dk[k] != key@);
                }
            }
            out.push((key.clone(), 1));
            assert forall|m: int| 0 <= m < out@.len() implies (#[trigger] out@[m]).0@ == distinct_keys(
                next,
            )[m] && out@[m].1 == count_in(next, distinct_keys(next)[m]) by {
                if m == dk.len() {
                    lemma_count_absent(prefix, key@);
                }
            }
        }
        i = i + 1;
    }
    assert(all.subrange(0, n as int) =~= all);
    out
}

/// The distinct keys of a sequence hold no element twice.
proof fn lemma_distinct_no_dup(s: Seq<Seq<char>>)
    ensures
        forall|a: int, b: int|
            0 <= a < b < distinct_keys(s).len() ==> #[trigger] distinct_keys(s)[a]
                != #[trigger] distinct_keys(s)[b],
    decreases s.len(),
{
    if s.len() > 0 {
        lemma_distinct_no_dup(s.drop_last());
        let prev = distinct_keys(s.drop_last());
        if !prev.contains(s.last()) {
            assert forall|a: int| 0 <= a < prev.len() implies prev[a] != s.last() by {
                if prev[a] == s.last() {
                    assert(prev.contains(s.last()));
                }
            }
        }
    }
}

/// The distinct keys of a sequence are exactly its elements.
proof fn lemma_distinct_contains(s: Seq<Seq<char>>, k: Seq<char>)
    ensures
        distinct_keys(s).contains(k) <==> s.contains(k),
    decreases s.len(),
{
    if s.len() > 0 {
        let p = s.drop_last();
        lemma_distinct_contains(p, k);
        if p.contains(k) {
            let j = choose|j: int| 0 <= j < p.len() && p[j] == k;
            assert(s[j] == k);
        }
        if s.contains(k) && s.last() != k {
            let j = choose|j: int| 0 <= j < s.len() && s[j] == k;
            assert(p[j] == k);
        }
        if s.last() == k {
            assert(s[s.len() - 1] == k);
        }
        let prev = distinct_keys(p);
        if !prev.contains(s.last()) {
            let d = prev.push(s.last());
            assert(d[d.len() - 1] == s.last());
            if prev.contains(k) {
                let j = choose|j: int| 0 <= j < prev.len() && prev[j] == k;
                assert(d[j] == k);
            }
            if d.contains(k) && k != s.last() {
                let j = choose|j: int| 0 <= j < d.len() && d[j] == k;
                assert(prev[j] == k);
            }
        }
    }
}

/// A key that does not occur has count zero.
proof fn lemma_count_absent(s: Seq<Seq<char>>, k: Seq<char>)
    requires
        !distinct_keys(s).contains(k),
    ensures
        count_in(s, k) == 0,
    decreases s.len(),
{
    lemma_distinct_contains(s, k);
    if s.len() > 0 {
        let p = s.drop_last();
        lemma_distinct_contains(p, k);
        if p.contains(k) {
            let j = choose|j: int| 0 <= j < p.len() && p[j] == k;
            assert(s[j] == k);
        }
        assert(s[s.len() - 1] != k);
        lemma_count_absent(p, k);
    }
}

/// The platform a row counts under.
pub open spec fn platform_label(web: bool) -> Seq<char> {
    if web {
        "Web"@
    } else {
        "Desktop"@
    }
}

/// The keyboard a row counts under: board and variant joined by a dash.
pub open spec fn keyboard_label(r: RequestLog) -> Seq<char> {
    r.board@ + "-"@ + r.variant@
}

pub open spec fn os_keys(rows: Seq<RequestLog>) -> Seq<Seq<char>> {
    rows.map_values(|r: RequestLog| r.os@)
}

pub open spec fn platform_keys(rows: Seq<RequestLog>) -> Seq<Seq<char>> {
    rows.map_values(|r: RequestLog| platform_label(r.web))
}

pub open spec fn keyboard_keys(rows: Seq<RequestLog>) -> Seq<Seq<char>> {
    rows.map_values(|r: RequestLog| keyboard_label(r))
}

pub open spec fn container_keys(rows: Seq<RequestLog>) -> Seq<Seq<char>> {
    rows.map_values(|r: RequestLog| r.container@)
}

pub open spec fn hash_keys(rows: Seq<RequestLog>) -> Seq<Seq<char>> {
    rows.map_values(|r: RequestLog| r.hash@)
}

pub open spec fn ip_keys(rows: Seq<RequestLog>) -> Seq<Seq<char>> {
    rows.map_values(|r: RequestLog| r.ip_addr@)
}

/// The sum of the layer counts of the rows.
pub open spec fn layers_sum(rows: Seq<RequestLog>) -> int
    decreases rows.len(),
{
    if rows.len() == 0 {
        0
    } else {
        layers_sum(rows.drop_last()) + rows.last().layers
    }
}

/// The sum of the build durations of the rows, an absent one counting zero.
pub open spec fn duration_sum(rows: Seq<RequestLog>) -> int
    decreases rows.len(),
{
    if rows.len() == 0 {
        0
    } else {
        duration_sum(rows.drop_last()) + match rows.last().build_duration {
            Some(d) => d as int,
            None => 0,
        }
    }
}

/// The aggregates of the request rows: total and distinct requests by
/// fingerprint, distinct clients, sums of layers and build time, and counts
/// by operating system, platform, keyboard and container.
pub fn summarize(rows: &Vec<RequestLog>) -> (r: StatsSummary)
    ensures
        r.total_builds == rows@.len(),
        r.unique_builds == distinct_keys(hash_keys(rows@)).len(),
        r.unique_users == distinct_keys(ip_keys(rows@)).len(),
        r.total_layers == layers_sum(rows@),
        r.total_build_ms == duration_sum(rows@),
        is_tally_of(r.os_counts@, os_keys(rows@)),
        is_tally_of(r.platform_counts@, platform_keys(rows@)),
        is_tally_of(r.keyboard_counts@, keyboard_keys(rows@)),
        is_tally_of(r.container_counts@, container_keys(rows@)),
{
    let n = rows.len();
    let mut os: Vec<String> = Vec::new();
    let mut platforms: Vec<String> = Vec::new();
    let mut keyboards: Vec<String> = Vec::new();
    let mut containers: Vec<String> = Vec::new();
    let mut hashes: Vec<String> = Vec::new();
    let mut users: Vec<String> = Vec::new();
    let mut total_layers: u128 = 0;
    let mut total_ms: i128 = 0;
    let mut i: usize = 0;
    while i < n
        invariant
            n == rows@.len(),
            i <= n,
            views(os@) == os_keys(rows@.subrange(0, i as int)),
            views(platforms@) == platform_keys(rows@.subrange(0, i as int)),
            views(keyboards@) == keyboard_keys(rows@.subrange(0, i as int)),
            views(containers@) == container_keys(rows@.subrange(0, i as int)),
            views(hashes@) == hash_keys(rows@.subrange(0, i as int)),
            views(users@) == ip_keys(rows@.subrange(0, i as int)),
            total_layers == layers_sum(rows@.subrange(0, i as int)),
            total_ms == duration_sum(rows@.subrange(0, i as int)),
            0 <= total_layers <= i * 0xffff_ffff,
            -(i * 0x8000_0000_0000_0000) <= total_ms <= i * 0x8000_0000_0000_0000,
        decreases n - i,
    {
        let ghost prefix = rows@.subrange(0, i as int);
        let ghost next = rows@.subrange(0, i + 1);
        assert(next.drop_last() =~= prefix);
        let row = &rows[i];
        assert(next.last() == *row);
        assert(next =~= prefix.push(*row));
        let ghost (os0, pl0, kb0, ct0, hs0, us0) = (os@, platforms@, keyboards@, containers@, hashes@, users@);
        os.push(row.os.clone());
        let platform = if row.web {
            String::from_str("Web")
        } else {
            String::from_str("Desktop")
        };
        platforms.push(platform);
        let mut keyboard = row.board.clone();
        keyboard.append("-");
        keyboard.append(row.variant.as_str());
        keyboards.push(keyboard);
        containers.push(row.container.clone());
        hashes.push(row.hash.clone());
        users.push(row.ip_addr.clone());
        assert(os@ =~= os0.push(os@.last()));
        assert(views(os@) =~= views(os0).push(row.os@));
        assert(os_keys(next) =~= os_keys(prefix).push(row.os@));
        assert(platforms@ =~= pl0.push(platforms@.last()));
        assert(views(platforms@) =~= views(pl0).push(platform_label(row.web)));
        assert(platform_keys(next) =~= platform_keys(prefix).push(platform_label(row.web)));
        assert(keyboards@ =~= kb0.push(keyboards@.last()));
        assert(views(keyboards@) =~= views(kb0).push(keyboard_label(*row)));
        assert(keyboard_keys(next) =~= keyboard_keys(prefix).push(keyboard_label(*row)));
        assert(containers@ =~= ct0.push(containers@.last()));
        assert(views(containers@) =~= views(ct0).push(row.container@));
        assert(container_keys(next) =~= container_keys(prefix).push(row.container@));
        assert(hashes@ =~= hs0.push(hashes@.last()));
        assert(views(hashes@) =~= views(hs0).push(row.hash@));
        assert(hash_keys(next) =~= hash_keys(prefix).push(row.hash@));
        assert(users@ =~= us0.push(users@.last()));
        assert(views(users@) =~= views(us0).push(row.ip_addr@));
        assert(ip_keys(next) =~= ip_keys(prefix).push(row.ip_addr@));
        assert(total_layers + row.layers <= (i + 1) * 0xffff_ffff) by (nonlinear_arith)
            requires
                total_layers <= i * 0xffff_ffff,
                row.layers <= 0xffff_ffff,
        ;
        assert((i + 1) * 0xffff_ffff <= 0x1_0000_0000_0000_0000 * 0xffff_ffff) by (nonlinear_arith)
            requires
                i < 0x1_0000_0000_0000_0000,
        ;
        total_layers = total_layers + row.layers as u128;
        let d: i64 = match row.build_duration {
            Some(d) => d,
            None => 0,
        };
        assert(-((i + 1) * 0x8000_0000_0000_0000) <= total_ms + d <= (i + 1)
            * 0x8000_0000_0000_0000) by (nonlinear_arith)
            requires
                -(i * 0x8000_0000_0000_0000) <= total_ms <= i * 0x8000_0000_0000_0000,
                -0x8000_0000_0000_0000 <= d < 0x8000_0000_0000_0000,
        ;
        assert((i + 1) * 0x8000_0000_0000_0000 <= 0x1_0000_0000_0000_0000 * 0x8000_0000_0000_0000)
            by (nonlinear_arith)
            requires
                i < 0x1_0000_0000_0000_0000,
        ;
        total_ms = total_ms + d as i128;
        i = i + 1;
    }
    assert(rows@.subrange(0, n as int) =~= rows@);
    let hash_counts = tally(&hashes);
    let user_counts = tally(&users);
    StatsSummary {
        total_builds: n,
        unique_builds: hash_counts.len(),
        unique_users: user_counts.len(),
        total_layers,
        total_build_ms: total_ms,
        os_counts: tally(&os),
        platform_counts: tally(&platforms),
        keyboard_counts: tally(&keyboards),
        container_counts: tally(&containers),
    }
}

} // verus!
