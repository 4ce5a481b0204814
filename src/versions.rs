//! Release versions: what each tag of the firmware repository was built
//! from, and which configured board variants can be built here.

use indexmap::IndexMap;
use vstd::prelude::*;
use crate::display::{build_number, build_number_of, display_version, display_version_of};

verus! {

/// A tagged firmware release.
pub struct ReleaseInfo {
    /// Build number: the commit count of the tagged commit, modulo 2^16.
    pub commit: u16,
    /// Authoring date of the tagged commit.
    pub date: String,
    /// The tagged commit's identifier.
    pub hash: String,
    /// Display version derived from the build number.
    pub bcd: String,
    /// Release notes address.
    pub notes: String,
}

impl Clone for ReleaseInfo {
    fn clone(&self) -> (r: Self)
        ensures
            r == *self,
    {
        ReleaseInfo {
            commit: self.commit,
            date: self.date.clone(),
            hash: self.hash.clone(),
            bcd: self.bcd.clone(),
            notes: self.notes.clone(),
        }
    }
}

/// A configured board variant that can be built here.
pub struct VersionInfo {
    pub container: String,
    pub channel: String,
    /// The release of the variant's tag, absent when the tag is unknown.
    pub info: Option<ReleaseInfo>,
}

/// One configured row: a board variant, its channel, container and tag.
pub struct VersionRow {
    pub name: String,
    pub channel: String,
    pub container: String,
    pub git_tag: String,
}

/// Where release notes of a tag are published.
pub const NOTES_URL: &'static str = "https://github.com/kiibohd/controller/releases/tag/";

/// Declares indexmap's `IndexMap`, an insertion-ordered hash map, as an
/// opaque type.
#[verifier::external_type_specification]
#[verifier::external_body]
#[verifier::reject_recursive_types(K)]
#[verifier::reject_recursive_types(V)]
#[verifier::reject_recursive_types(S)]
pub struct ExIndexMap<K, V, S>(IndexMap<K, V, S>);

/// The releases that a tag table holds, by tag.
pub uninterp spec fn tag_releases(m: IndexMap<String, ReleaseInfo>) -> Map<Seq<char>, ReleaseInfo>;

/// The tags of a tag table, in order of first insertion.
pub uninterp spec fn tag_order(m: IndexMap<String, ReleaseInfo>) -> Seq<Seq<char>>;

/// Relies on `IndexMap::new`: the new map is empty.
#[verifier::external_body]
pub(crate) fn tags_new() -> (r: IndexMap<String, ReleaseInfo>)
    ensures
        tag_releases(r).dom().len() == 0,
        tag_releases(r).dom().finite(),
        tag_order(r).len() == 0,
{
    IndexMap::new()
}

/// Relies on `IndexMap::insert`: the value of the tag is set; a new tag goes
/// last in order, an existing one keeps its place.
#[verifier::external_body]
pub(crate) fn tags_insert(m: &mut IndexMap<String, ReleaseInfo>, tag: String, info: ReleaseInfo)
    ensures
        tag_releases(*final(m)) == tag_releases(*old(m)).insert(tag@, info),
        tag_releases(*old(m)).contains_key(tag@) ==> tag_order(*final(m)) == tag_order(*old(m)),
        !tag_releases(*old(m)).contains_key(tag@) ==> tag_order(*final(m)) == tag_order(
            *old(m),
        ).push(tag@),
{
    m.insert(tag, info);
}

/// Relies on `IndexMap::get`: the value stored under the tag, if any; the
/// copy is made by `ReleaseInfo::clone`.
#[verifier::external_body]
pub(crate) fn tags_get(m: &IndexMap<String, ReleaseInfo>, tag: &String) -> (r: Option<ReleaseInfo>)
    ensures
        r == release_of(tag_releases(*m), tag@),
{
    m.get(tag).cloned()
}

/// The release of a tag in a table, if the tag is there.
pub open spec fn release_of(tags: Map<Seq<char>, ReleaseInfo>, tag: Seq<char>) -> Option<ReleaseInfo> {
    if tags.contains_key(tag) {
        Some(tags[tag])
    } else {
        None
    }
}

/// A release as plain values.
pub ghost struct ReleaseView {
    pub commit: u16,
    pub date: Seq<char>,
    pub hash: Seq<char>,
    pub bcd: Seq<char>,
    pub notes: Seq<char>,
}

impl View for ReleaseInfo {
    type V = ReleaseView;

    open spec fn view(&self) -> ReleaseView {
        ReleaseView {
            commit: self.commit,
            date: self.date@,
            hash: self.hash@,
            bcd: self.bcd@,
            notes: self.notes@,
        }
    }
}

/// What is known of one remote tag: the commit it names, its full reference
/// as listed, the number of commits reachable from it, and its authoring date.
pub struct TagRecord {
    pub commit_hash: String,
    pub reference: String,
    pub count: u64,
    pub date: String,
}

/// The prefix of a tag reference.
pub const TAG_PREFIX: &'static str = "refs/tags/";

/// `s` with every occurrence of `p` removed, scanning left to right.
pub open spec fn remove_all(s: Seq<char>, p: Seq<char>) -> Seq<char>
    decreases s.len(),
{
    if s.len() == 0 {
        s
    } else if p.len() > 0 && p.len() <= s.len() && s.subrange(0, p.len() as int) == p {
        remove_all(s.subrange(p.len() as int, s.len() as int), p)
    } else {
        seq![s[0]] + remove_all(s.subrange(1, s.len() as int), p)
    }
}

/// The tag name of a reference: the reference with `refs/tags/` removed.
pub open spec fn tag_name_of(reference: Seq<char>) -> Seq<char> {
    remove_all(reference, TAG_PREFIX@)
}

/// The release that a tag record gives.
pub open spec fn release_view_of(rec: TagRecord) -> ReleaseView {
    ReleaseView {
        commit: build_number_of(rec.count as nat) as u16,
        date: rec.date@,
        hash: rec.commit_hash@,
        bcd: display_version_of(rec.count as nat),
        notes: NOTES_URL@ + tag_name_of(rec.reference@),
    }
}

/// The table of releases that a run of tag records gives, inserted in order:
/// a later record of the same tag replaces an earlier one.
pub open spec fn table_view(recs: Seq<TagRecord>) -> Map<Seq<char>, ReleaseView>
    decreases recs.len(),
{
    if recs.len() == 0 {
        Map::empty()
    } else {
        table_view(recs.drop_last()).insert(
            tag_name_of(recs.last().reference@),
            release_view_of(recs.last()),
        )
    }
}

/// The tag names of a run of tag records, each at its first occurrence.
pub open spec fn order_view(recs: Seq<TagRecord>) -> Seq<Seq<char>>
    decreases recs.len(),
{
    if recs.len() == 0 {
        Seq::empty()
    } else {
        let prev = order_view(recs.drop_last());
        let t = tag_name_of(recs.last().reference@);
        if table_view(recs.drop_last()).contains_key(t) {
            prev
        } else {
            prev.push(t)
        }
    }
}

/// The tag name of a reference, such as `v0.5.7` for `refs/tags/v0.5.7`.
pub fn tag_name(reference: &str) -> (r: String)
    ensures
        r@ == tag_name_of(reference@),
{
    let n = reference.unicode_len();
    let pat = TAG_PREFIX;
    proof {
        reveal_strlit("refs/tags/");
    }
    let m: usize = 10;
    assert(pat@.len() == m);
    let mut out = String::new();
    let mut i: usize = 0;
    assert(reference@.subrange(0, n as int) =~= reference@);
    assert(out@ + remove_all(reference@, pat@) =~= remove_all(reference@, pat@));
    while i < n
        invariant
            n == reference@.len(),
            i <= n,
            pat@ == TAG_PREFIX@,
            pat@.len() == m,
            m == 10,
            out@ + remove_all(reference@.subrange(i as int, n as int), pat@) == remove_all(
                reference@,
                pat@,
            ),
        decreases n - i,
    {
        let rest = Ghost(reference@.subrange(i as int, n as int));
        if m <= n - i && crate::text::text_eq(reference.substring_char(i, i + m), pat) {
            assert(rest@.subrange(0, m as int) =~= reference@.subrange(i as int, i + m));
            assert(rest@.subrange(m as int, rest@.len() as int) =~= reference@.subrange(
                i + m,
                n as int,
            ));
            i = i + m;
        } else {
            let c = reference.substring_char(i, i + 1);
            if m <= n - i {
                assert(rest@.subrange(0, m as int) =~= reference@.subrange(i as int, i + m));
            }
            assert(c@ =~= seq![rest@[0]]);
            assert(rest@.subrange(1, rest@.len() as int) =~= reference@.subrange(
                i + 1,
                n as int,
            ));
            let before = Ghost(out@);
            out.append(c);
            let tail = Ghost(remove_all(reference@.subrange(i + 1, n as int), pat@));
            assert(out@ + tail@ =~= before@ + (seq![rest@[0]] + tail@));
            i = i + 1;
        }
    }
    assert(out@ + remove_all(reference@.subrange(n as int, n as int), pat@) =~= out@);
    out
}

/// The release that one tag record gives: its build number, display
/// version and notes address.
pub fn release_info(rec: &TagRecord) -> (r: ReleaseInfo)
    ensures
        r@ == release_view_of(*rec),
{
    let tag = tag_name(rec.reference.as_str());
    let mut notes = String::from_str(NOTES_URL);
    notes.append(tag.as_str());
    ReleaseInfo {
        commit: build_number(rec.count),
        date: rec.date.clone(),
        hash: rec.commit_hash.clone(),
        bcd: display_version(rec.count),
        notes,
    }
}

/// The table of releases of a run of tag records, keyed by tag name and in
/// order of first appearance; a later record of a tag replaces the release of
/// an earlier one.
pub fn tag_table(recs: Vec<TagRecord>) -> (r: IndexMap<String, ReleaseInfo>)
    ensures
        tag_releases(r).dom() == table_view(recs@).dom(),
        forall|t: Seq<char>| #[trigger]
            tag_releases(r).contains_key(t) ==> tag_releases(r)[t]@ == table_view(recs@)[t],
        tag_order(r) == order_view(recs@),
{
    let ghost all = recs@;
    let mut table = tags_new();
    let mut i: usize = 0;
    let n = recs.len();
    assert(tag_releases(table).dom() =~= table_view(all.subrange(0, 0)).dom());
    assert(tag_order(table) =~= order_view(all.subrange(0, 0)));
    while i < n
        invariant
            n == all.len(),
            i <= n,
            all == recs@,
            tag_releases(table).dom() == table_view(all.subrange(0, i as int)).dom(),
            forall|t: Seq<char>| #[trigger]
                tag_releases(table).contains_key(t) ==> tag_releases(table)[t]@ == table_view(
                    all.subrange(0, i as int),
                )[t],
            tag_order(table) == order_view(all.subrange(0, i as int)),
        decreases n - i,
    {
        let rec = &recs[i];
        let ghost prefix = all.subrange(0, i as int);
        let ghost next = all.subrange(0, i + 1);
        assert(next.drop_last() =~= prefix);
        assert(next.last() == *rec);
        let tag = tag_name(rec.reference.as_str());
        let info = release_info(rec);
        tags_insert(&mut table, tag, info);
        assert(tag_releases(table).dom() =~= table_view(next).dom());
        i = i + 1;
    }
    assert(all.subrange(0, n as int) =~= all);
    table
}

/// Whether a container is among the available ones.
pub open spec fn available(containers: Seq<String>, c: Seq<char>) -> bool {
    exists|j: int| 0 <= j < containers.len() && #[trigger] containers[j]@ == c
}

/// The entry of a configured row whose container is available.
pub open spec fn entry_of(row: VersionRow, tags: Map<Seq<char>, ReleaseInfo>) -> (String, VersionInfo) {
    (
        row.name,
        VersionInfo {
            container: row.container,
            channel: row.channel,
            info: release_of(tags, row.git_tag@),
        },
    )
}

/// The version entries of configured rows, in row order: rows whose container
/// is not available are left out, the others are joined to their tag's
/// release.
pub open spec fn resolve_rows(
    rows: Seq<VersionRow>,
    containers: Seq<String>,
    tags: Map<Seq<char>, ReleaseInfo>,
) -> Seq<(String, VersionInfo)>
    decreases rows.len(),
{
    if rows.len() == 0 {
        Seq::empty()
    } else {
        let prev = resolve_rows(rows.drop_last(), containers, tags);
        if available(containers, rows.last().container@) {
            prev.push(entry_of(rows.last(), tags))
        } else {
            prev
        }
    }
}

/// Whether `c` is one of `containers`.
fn is_available(containers: &Vec<String>, c: &String) -> (r: bool)
    ensures
        r == available(containers@, c@),
{
    let mut j: usize = 0;
    while j < containers.len()
        invariant
            j <= containers@.len(),
            forall|k: int| 0 <= k < j ==> #[trigger] containers@[k]@ != c@,
        decreases containers@.len() - j,
    {
        if containers[j] == *c {
            return true;
        }
        j = j + 1;
    }
    false
}

/// The version entries of the configured rows that can be built with the
/// available containers, each with its tag's release, by variant name.
pub fn version_map(
    rows: Vec<VersionRow>,
    containers: &Vec<String>,
    tags: &IndexMap<String, ReleaseInfo>,
) -> (r: Vec<(String, VersionInfo)>)
    ensures
        r@ == resolve_rows(rows@, containers@, tag_releases(*tags)),
{
    let ghost all = rows@;
    let ghost tmap = tag_releases(*tags);
    let n = rows.len();
    let mut out: Vec<(String, VersionInfo)> = Vec::new();
    let mut i: usize = 0;
    assert(all.subrange(0, 0) =~= Seq::<VersionRow>::empty());
    while i < n
        invariant
            n == all.len(),
            i <= n,
            tmap == tag_releases(*tags),
            all == rows@,
            out@ == resolve_rows(all.subrange(0, i as int), containers@, tmap),
        decreases n - i,
    {
        let row = &rows[i];
        let ghost next = all.subrange(0, i + 1);
        assert(next.drop_last() =~= all.subrange(0, i as int));
        if is_available(containers, &row.container) {
            let info = tags_get(tags, &row.git_tag);
            let entry = VersionInfo {
                container: row.container.clone(),
                channel: row.channel.clone(),
                info,
            };
            out.push((row.name.clone(), entry));
        }
        i = i + 1;
    }
    assert(all.subrange(0, n as int) =~= all);
    out
}

/// Every entry of the resolved versions has an available container: a row
/// whose container is unavailable contributes nothing.
pub proof fn lemma_resolved_available(
    rows: Seq<VersionRow>,
    containers: Seq<String>,
    tags: Map<Seq<char>, ReleaseInfo>,
)
    ensures
        forall|k: int|
            0 <= k < resolve_rows(rows, containers, tags).len() ==> available(
                containers,
                (#[trigger] resolve_rows(rows, containers, tags)[k]).1.container@,
            ),
    decreases rows.len(),
{
    if rows.len() > 0 {
        lemma_resolved_available(rows.drop_last(), containers, tags);
    }
}

/// Every row whose container is available has its entry among the resolved
/// versions; when its tag is unknown, the entry has no release.
pub proof fn lemma_row_resolved(
    rows: Seq<VersionRow>,
    containers: Seq<String>,
    tags: Map<Seq<char>, ReleaseInfo>,
    i: int,
)
    requires
        0 <= i < rows.len(),
        available(containers, rows[i].container@),
    ensures
        resolve_rows(rows, containers, tags).contains(entry_of(rows[i], tags)),
        !tags.contains_key(rows[i].git_tag@) ==> entry_of(rows[i], tags).1.info is None,
    decreases rows.len(),
{
    let out = resolve_rows(rows, containers, tags);
    if i == rows.len() - 1 {
        assert(out.last() == entry_of(rows[i], tags));
        assert(out[out.len() - 1] == entry_of(rows[i], tags));
    } else {
        lemma_row_resolved(rows.drop_last(), containers, tags, i);
        let prev = resolve_rows(rows.drop_last(), containers, tags);
        let k = choose|k: int| 0 <= k < prev.len() && prev[k] == entry_of(rows[i], tags);
        if available(containers, rows.last().container@) {
            assert(out[k] == prev[k]);
        }
        assert(out[k] == entry_of(rows[i], tags));
    }
}

/// What `str::trim` returns for a string.
pub uninterp spec fn trim_of(s: Seq<char>) -> Seq<char>;

/// Relies on `str::trim`: leading and trailing whitespace removed, which
/// depends on the characters alone.
#[verifier::external_body]
fn trimmed(s: &str) -> (r: String)
    ensures
        r@ == trim_of(s@),
{
    s.trim().to_string()
}

/// The position of the first tab in `s`, if there is one.
pub open spec fn tab_index(s: Seq<char>) -> Option<int>
    decreases s.len(),
{
    if s.len() == 0 {
        None
    } else if s[0] == '\t' {
        Some(0)
    } else {
        match tab_index(s.drop_first()) {
            Some(k) => Some(k + 1),
            None => None,
        }
    }
}

/// The text of `s` up to its first tab, or all of it.
pub open spec fn first_field(s: Seq<char>) -> Seq<char> {
    match tab_index(s) {
        Some(k) => s.subrange(0, k),
        None => s,
    }
}

/// One line of a remote tag listing, `<commit>\t<reference>`, as a pair of
/// trimmed fields; dereferenced annotation lines (holding `^{}`) and lines
/// without a tab give nothing.
pub open spec fn listing_line_of(line: Seq<char>) -> Option<(Seq<char>, Seq<char>)> {
    if crate::text::has_infix(line, "^{}"@) {
        None
    } else {
        match tab_index(line) {
            Some(k) => Some(
                (
                    trim_of(line.subrange(0, k)),
                    trim_of(first_field(line.subrange(k + 1, line.len() as int))),
                ),
            ),
            None => None,
        }
    }
}

/// The entries of a remote tag listing, last line first.
pub open spec fn listing_of(lines: Seq<Seq<char>>) -> Seq<(Seq<char>, Seq<char>)>
    decreases lines.len(),
{
    if lines.len() == 0 {
        Seq::empty()
    } else {
        let rest = listing_of(lines.drop_first());
        match listing_line_of(lines[0]) {
            Some(p) => rest.push(p),
            None => rest,
        }
    }
}

/// The position of the first tab of `s` at or after `from`, or its length.
fn find_tab(s: &Vec<char>, from: usize) -> (r: usize)
    requires
        from <= s@.len(),
    ensures
        from <= r <= s@.len(),
        tab_index(s@.subrange(from as int, s@.len() as int)) == if r < s@.len() {
            Some(r - from)
        } else {
            None::<int>
        },
    decreases s@.len() - from,
{
    let ghost rest = s@.subrange(from as int, s@.len() as int);
    if from == s.len() {
        return from;
    }
    if s[from] == '\t' {
        return from;
    }
    let r = find_tab(s, from + 1);
    assert(rest.drop_first() =~= s@.subrange(from + 1, s@.len() as int));
    r
}

/// One line of a remote tag listing: the commit and the reference it lists.
pub fn listing_line(line: &str) -> (r: Option<(String, String)>)
    ensures
        match r {
            Some(p) => listing_line_of(line@) == Some((p.0@, p.1@)),
            None => listing_line_of(line@) is None,
        },
{
    if crate::text::contains_text(line, "^{}") {
        return None;
    }
    let chars = crate::text::chars_of(line);
    let n = chars.len();
    let k = find_tab(&chars, 0);
    assert(line@.subrange(0, n as int) =~= line@);
    if k == n {
        return None;
    }
    let end = find_tab(&chars, k + 1);
    let ghost tail = line@.subrange(k + 1, n as int);
    assert(tail =~= chars@.subrange(k + 1, n as int));
    let commit = trimmed(line.substring_char(0, k));
    let reference = trimmed(line.substring_char(k + 1, end));
    assert(first_field(tail) =~= line@.subrange(k + 1, end as int));
    Some((commit, reference))
}

/// The commit and reference pairs of a remote tag listing, given line by
/// line, in reverse order of the listing.
pub fn tag_listing(lines: &Vec<String>) -> (r: Vec<(String, String)>)
    ensures
        r@.map_values(|p: (String, String)| (p.0@, p.1@)) == listing_of(
            lines@.map_values(|l: String| l@),
        ),
{
    let ghost all = lines@.map_values(|l: String| l@);
    let n = lines.len();
    let mut out: Vec<(String, String)> = Vec::new();
    let mut j: usize = 0;
    assert(all.subrange(n as int, n as int) =~= Seq::<Seq<char>>::empty());
    assert(out@.map_values(|p: (String, String)| (p.0@, p.1@)) =~= Seq::empty());
    while j < n
        invariant
            n == lines@.len(),
            all == lines@.map_values(|l: String| l@),
            j <= n,
            out@.map_values(|p: (String, String)| (p.0@, p.1@)) == listing_of(
                all.subrange(n - j, n as int),
            ),
        decreases n - j,
    {
        let idx = n - 1 - j;
        let ghost before = out@;
        let ghost seg = all.subrange(idx as int, n as int);
        assert(seg.drop_first() =~= all.subrange(n - j, n as int));
        assert(seg[0] == lines@[idx as int]@);
        match listing_line(lines[idx].as_str()) {
            Some(p) => {
                out.push(p);
                assert(out@.map_values(|p: (String, String)| (p.0@, p.1@)) =~= before.map_values(
                    |p: (String, String)| (p.0@, p.1@),
                ).push((p.0@, p.1@)));
            },
            None => {},
        }
        j = j + 1;
    }
    assert(all.subrange(0, n as int) =~= all);
    out
}

/// Whether every character of `s` is a decimal digit.
pub open spec fn all_digits(s: Seq<char>) -> bool {
    forall|k: int| 0 <= k < s.len() ==> '0' <= #[trigger] s[k] <= '9'
}

/// The value of a run of decimal digits.
pub open spec fn decimal_value(s: Seq<char>) -> int
    decreases s.len(),
{
    if s.len() == 0 {
        0
    } else {
        decimal_value(s.drop_last()) * 10 + (s.last() as int - '0' as int)
    }
}

/// The commit count that `git rev-list --count` printed: the trimmed text
/// must be a non-empty run of decimal digits whose value fits in 64 bits.
pub fn parse_count(text: &str) -> (r: Option<u64>)
    ensures
        r is Some <==> (trim_of(text@).len() > 0 && all_digits(trim_of(text@)) && decimal_value(
            trim_of(text@),
        ) <= u64::MAX),
        r matches Some(v) ==> v == decimal_value(trim_of(text@)),
{
    let t = trimmed(text);
    let chars = crate::text::chars_of(t.as_str());
    let n = chars.len();
    if n == 0 {
        return None;
    }
    let mut v: u64 = 0;
    let mut i: usize = 0;
    while i < n
        invariant
            n == chars@.len(),
            chars@ == trim_of(text@),
            i <= n,
            all_digits(chars@.subrange(0, i as int)),
            v == decimal_value(chars@.subrange(0, i as int)),
        decreases n - i,
    {
        let c = chars[i];
        let ghost next = chars@.subrange(0, i + 1);
        assert(next.drop_last() =~= chars@.subrange(0, i as int));
        if c < '0' || c > '9' {
            assert(!all_digits(chars@)) by {
                assert(chars@[i as int] == c);
            }
            return None;
        }
        let d = (c as u32 - '0' as u32) as u64;
        if v > (u64::MAX - d) / 10 {
            proof {
                if all_digits(chars@) {
                    lemma_decimal_grows(chars@, i as int + 1);
                    assert(chars@[i as int] == c);
                    assert(v * 10 + d > u64::MAX) by (nonlinear_arith)
                        requires
                            v > (u64::MAX - d) / 10,
                            d <= 9,
                    ;
                }
            }
            return None;
        }
        v = v * 10 + d;
        i = i + 1;
    }
    assert(chars@.subrange(0, n as int) =~= chars@);
    Some(v)
}

/// Once a prefix of digits is too large, so is the whole run.
proof fn lemma_decimal_grows(s: Seq<char>, k: int)
    requires
        0 <= k <= s.len(),
        all_digits(s),
    ensures
        decimal_value(s) >= decimal_value(s.subrange(0, k)),
    decreases s.len() - k,
{
    if k < s.len() {
        lemma_decimal_grows(s, k + 1);
        let next = s.subrange(0, k + 1);
        assert(next.drop_last() =~= s.subrange(0, k));
        assert(decimal_value(s.subrange(0, k)) >= 0) by {
            lemma_decimal_nonneg(s.subrange(0, k));
        }
        assert('0' <= s[k] <= '9');
    } else {
        assert(s.subrange(0, k) =~= s);
    }
}

proof fn lemma_decimal_nonneg(s: Seq<char>)
    requires
        all_digits(s),
    ensures
        decimal_value(s) >= 0,
    decreases s.len(),
{
    if s.len() > 0 {
        assert(all_digits(s.drop_last())) by {
            assert forall|k: int| 0 <= k < s.drop_last().len() implies '0' <= #[trigger] s.drop_last()[k] <= '9' by {
                assert(s.drop_last()[k] == s[k]);
            }
        }
        lemma_decimal_nonneg(s.drop_last());
        assert('0' <= s[s.len() - 1] <= '9');
    }
}

} // verus!
