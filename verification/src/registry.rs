use vstd::prelude::*;

use crate::text::{
    chars_of, contains_spec, contains_sub, dec_str_spec, lex_le_chars, lex_le_spec, lower_chars,
    lower_spec, push_u32_dec, starts_with_chars, starts_with_spec, trim_bounds, trim_spec,
};

verus! {

// The registry scanner's normalization pipeline.
//
// Reading the OS installation registry is I/O and stays outside this crate's
// verified core; the caller enumerates the uninstall registry roots in their
// fixed order (64-bit machine-wide, then 32-bit-on-64-bit machine-wide, then
// current-user) and hands every subkey's raw values over as a
// `RawRegistryEntry`. Everything after that point — field validation, the
// noise filter, the version fallback chain, deduplication and the final
// case-insensitive sort — is verified here.

/// The raw values read from one uninstall-registry subkey. A field that is
/// missing, or whose stored type is not the expected one, is `None`.
pub struct RawRegistryEntry {
    pub display_name: Option<String>,
    pub display_version: Option<String>,
    pub version: Option<String>,
    pub version_major: Option<u32>,
    pub version_minor: Option<u32>,
    pub major_version: Option<u32>,
    pub minor_version: Option<u32>,
    pub publisher: Option<String>,
    pub install_date: Option<String>,
    pub install_location: Option<String>,
    pub uninstall_string: Option<String>,
    pub display_icon: Option<String>,
    pub estimated_size: Option<u32>,
}

/// One normalized installed-software record.
pub struct InstalledSoftware {
    pub name: String,
    pub version: String,
    pub publisher: String,
    pub install_date: String,
    pub install_location: String,
    pub uninstall_string: String,
    pub icon_path: String,
    pub estimated_size: u64,
}

pub open spec fn or_empty_spec(o: Option<String>) -> Seq<char> {
    match o {
        Some(s) => s@,
        None => Seq::empty(),
    }
}

pub open spec fn or_zero_spec(o: Option<u32>) -> u32 {
    match o {
        Some(n) => n,
        None => 0,
    }
}

/// Display names that are dropped as noise: empty names, hotfix identifiers
/// ("KB..."), and names containing any blocklisted substring (updates,
/// redistributables, runtimes, drivers, development kits and the like).
#[verifier::opaque]
pub open spec fn name_blocked_spec(name: Seq<char>) -> bool {
    ||| name.len() == 0
    ||| starts_with_spec(name, "KB"@)
    ||| contains_spec(name, "Security Update"@)
    ||| contains_spec(name, "Hotfix"@)
    ||| contains_spec(name, "Microsoft Visual C++"@)
    ||| contains_spec(name, "Redistributable"@)
    ||| contains_spec(name, ".NET"@)
    ||| contains_spec(name, "Framework"@)
    ||| contains_spec(name, "Driver"@)
    ||| contains_spec(name, "SDK"@)
    ||| contains_spec(name, "Language Pack"@)
    ||| contains_spec(name, "MUI"@)
    ||| contains_spec(name, "Service"@)
    ||| contains_spec(name, "Update"@)
    ||| contains_spec(name, "Runtime"@)
    ||| contains_spec(name, "PhysX"@)
    ||| contains_spec(name, "DirectX"@)
    ||| contains_spec(name, "Vulkan"@)
    ||| contains_spec(name, "WinRT"@)
    ||| contains_spec(name, "Intellisense"@)
    ||| contains_spec(name, "Application Verifier"@)
    ||| contains_spec(name, "Certification Kit"@)
    ||| contains_spec(name, "Development Kit"@)
    ||| contains_spec(name, "vs_"@)
    ||| contains_spec(name, "WinAppDeploy"@)
    ||| contains_spec(name, "Universal CRT"@)
    ||| contains_spec(name, "WinDirStat"@)
    ||| contains_spec(name, "vcpp"@)
}

fn contains_lit(hay: &Vec<char>, lit: &str) -> (r: bool)
    ensures
        r == contains_spec(hay@, lit@),
{
    let needle = chars_of(lit);
    contains_sub(hay, &needle)
}

/// Whether a display name falls under the noise filter.
pub fn name_blocked(name: &str) -> (r: bool)
    ensures
        r == name_blocked_spec(name@),
{
    proof {
        reveal(name_blocked_spec);
    }
    let v = chars_of(name);
    if v.len() == 0 {
        return true;
    }
    let kb = chars_of("KB");
    if starts_with_chars(&v, &kb) {
        return true;
    }
    contains_lit(&v, "Security Update") || contains_lit(&v, "Hotfix") || contains_lit(
        &v,
        "Microsoft Visual C++",
    ) || contains_lit(&v, "Redistributable") || contains_lit(&v, ".NET") || contains_lit(
        &v,
        "Framework",
    ) || contains_lit(&v, "Driver") || contains_lit(&v, "SDK") || contains_lit(
        &v,
        "Language Pack",
    ) || contains_lit(&v, "MUI") || contains_lit(&v, "Service") || contains_lit(&v, "Update")
        || contains_lit(&v, "Runtime") || contains_lit(&v, "PhysX") || contains_lit(&v, "DirectX")
        || contains_lit(&v, "Vulkan") || contains_lit(&v, "WinRT") || contains_lit(
        &v,
        "Intellisense",
    ) || contains_lit(&v, "Application Verifier") || contains_lit(&v, "Certification Kit")
        || contains_lit(&v, "Development Kit") || contains_lit(&v, "vs_") || contains_lit(
        &v,
        "WinAppDeploy",
    ) || contains_lit(&v, "Universal CRT") || contains_lit(&v, "WinDirStat") || contains_lit(
        &v,
        "vcpp",
    )
}

pub open spec fn is_digit_char(c: char) -> bool {
    '0' <= c && c <= '9'
}

pub open spec fn has_digit_spec(s: Seq<char>) -> bool {
    exists|i: int| 0 <= i < s.len() && is_digit_char(s[i])
}

/// A trimmed version candidate, or empty when the candidate holds no digit
/// at all (placeholder tokens and similar garbage).
#[verifier::opaque]
pub open spec fn sanitize_version_spec(v: Seq<char>) -> Seq<char> {
    if has_digit_spec(trim_spec(v)) {
        trim_spec(v)
    } else {
        Seq::empty()
    }
}

/// Trims the candidate and rejects it when it contains no digit.
pub fn sanitize_version(version: &str) -> (r: String)
    ensures
        r@ == sanitize_version_spec(version@),
{
    proof {
        reveal(sanitize_version_spec);
    }
    let v = chars_of(version);
    let (a, b) = trim_bounds(&v);
    let mut i = a;
    let mut found = false;
    while i < b
        invariant
            a <= i <= b <= v@.len(),
            found == exists|j: int| a <= j < i && is_digit_char(v@[j]),
        decreases b - i,
    {
        if '0' <= v[i] && v[i] <= '9' {
            found = true;
        }
        i += 1;
    }
    proof {
        let t = v@.subrange(a as int, b as int);
        assert(forall|j: int| 0 <= j < t.len() ==> t[j] == v@[a + j]);
        if found {
            let j = choose|j: int| a <= j < b && is_digit_char(v@[j]);
            assert(t[j - a] == v@[j]);
            assert(has_digit_spec(t));
        } else {
            assert forall|j: int| 0 <= j < t.len() implies !is_digit_char(t[j]) by {
                assert(t[j] == v@[a + j]);
            }
        }
    }
    if found {
        String::from_str(version.substring_char(a, b))
    } else {
        String::new()
    }
}

/// "major.minor" in decimal.
pub open spec fn pair_str_spec(major: u32, minor: u32) -> Seq<char> {
    dec_str_spec(major as int) + seq!['.'] + dec_str_spec(minor as int)
}

fn pair_string(major: u32, minor: u32) -> (r: String)
    ensures
        r@ == pair_str_spec(major, minor),
{
    let mut s = String::new();
    push_u32_dec(&mut s, major);
    s.append(".");
    push_u32_dec(&mut s, minor);
    proof {
        reveal_strlit(".");
        assert("."@ =~= seq!['.']);
        assert(s@ =~= pair_str_spec(major, minor));
    }
    s
}

/// The version fallback chain: the sanitized "DisplayVersion" string, else
/// the sanitized "Version" string, else a numeric major/minor pair under
/// either naming convention, else empty.
#[verifier::opaque]
pub open spec fn version_spec(e: RawRegistryEntry) -> Seq<char> {
    if sanitize_version_spec(or_empty_spec(e.display_version)).len() > 0 {
        sanitize_version_spec(or_empty_spec(e.display_version))
    } else if sanitize_version_spec(or_empty_spec(e.version)).len() > 0 {
        sanitize_version_spec(or_empty_spec(e.version))
    } else if or_zero_spec(e.version_major) > 0 || or_zero_spec(e.version_minor) > 0 {
        pair_str_spec(or_zero_spec(e.version_major), or_zero_spec(e.version_minor))
    } else if or_zero_spec(e.major_version) > 0 || or_zero_spec(e.minor_version) > 0 {
        pair_str_spec(or_zero_spec(e.major_version), or_zero_spec(e.minor_version))
    } else {
        Seq::empty()
    }
}

fn sanitize_opt(o: &Option<String>) -> (r: String)
    ensures
        r@ == sanitize_version_spec(or_empty_spec(*o)),
{
    match o {
        Some(s) => sanitize_version(s.as_str()),
        None => {
            let r = String::new();
            proof {
                reveal(sanitize_version_spec);
                let t = trim_spec(Seq::<char>::empty());
                assert(t =~= Seq::<char>::empty());
            }
            r
        },
    }
}

fn or_zero(o: &Option<u32>) -> (r: u32)
    ensures
        r == or_zero_spec(*o),
{
    match o {
        Some(n) => *n,
        None => 0,
    }
}

/// Resolves the version for one raw entry through the fallback chain.
pub fn get_version_string(e: &RawRegistryEntry) -> (r: String)
    ensures
        r@ == version_spec(*e),
{
    proof {
        reveal(version_spec);
    }
    let dv = sanitize_opt(&e.display_version);
    if dv.as_str().unicode_len() > 0 {
        return dv;
    }
    let v = sanitize_opt(&e.version);
    if v.as_str().unicode_len() > 0 {
        return v;
    }
    let major = or_zero(&e.version_major);
    let minor = or_zero(&e.version_minor);
    if major > 0 || minor > 0 {
        return pair_string(major, minor);
    }
    let major = or_zero(&e.major_version);
    let minor = or_zero(&e.minor_version);
    if major > 0 || minor > 0 {
        return pair_string(major, minor);
    }
    String::new()
}

fn or_empty(o: &Option<String>) -> (r: String)
    ensures
        r@ == or_empty_spec(*o),
{
    match o {
        Some(s) => s.clone(),
        None => String::new(),
    }
}

/// The raw entry carries a display name that passes the noise filter.
pub open spec fn parses_ok(e: RawRegistryEntry) -> bool {
    e.display_name is Some && !name_blocked_spec(or_empty_spec(e.display_name))
}

/// `sw` is exactly the normalized record for the raw entry `e`.
pub open spec fn entry_matches(e: RawRegistryEntry, sw: InstalledSoftware) -> bool {
    &&& parses_ok(e)
    &&& sw.name@ == or_empty_spec(e.display_name)
    &&& sw.version@ == version_spec(e)
    &&& sw.publisher@ == or_empty_spec(e.publisher)
    &&& sw.install_date@ == or_empty_spec(e.install_date)
    &&& sw.install_location@ == or_empty_spec(e.install_location)
    &&& sw.uninstall_string@ == or_empty_spec(e.uninstall_string)
    &&& sw.icon_path@ == or_empty_spec(e.display_icon)
    &&& sw.estimated_size == or_zero_spec(e.estimated_size) as u64
}

/// Normalizes one raw subkey, or rejects it under the noise filter.
pub fn parse_software_entry(e: &RawRegistryEntry) -> (r: Option<InstalledSoftware>)
    ensures
        r is Some <==> parses_ok(*e),
        match r {
            Some(sw) => entry_matches(*e, sw),
            None => true,
        },
{
    let name: String = match &e.display_name {
        Some(n) => n.clone(),
        None => {
            return None;
        },
    };
    if name_blocked(name.as_str()) {
        return None;
    }
    let version = get_version_string(e);
    let publisher = or_empty(&e.publisher);
    let install_date = or_empty(&e.install_date);
    let install_location = or_empty(&e.install_location);
    let uninstall_string = or_empty(&e.uninstall_string);
    let icon_path = or_empty(&e.display_icon);
    let estimated_size = match &e.estimated_size {
        Some(n) => *n as u64,
        None => 0u64,
    };
    Some(
        InstalledSoftware {
            name,
            version,
            publisher,
            install_date,
            install_location,
            uninstall_string,
            icon_path,
            estimated_size,
        },
    )
}

impl Clone for InstalledSoftware {
    /// Field-for-field copy.
    fn clone(&self) -> (r: Self)
        ensures
            r == *self,
    {
        let r = InstalledSoftware {
            name: self.name.clone(),
            version: self.version.clone(),
            publisher: self.publisher.clone(),
            install_date: self.install_date.clone(),
            install_location: self.install_location.clone(),
            uninstall_string: self.uninstall_string.clone(),
            icon_path: self.icon_path.clone(),
            estimated_size: self.estimated_size,
        };
        r
    }
}

/// Two records that count as duplicates: same name and same version.
pub open spec fn same_key(a: InstalledSoftware, b: InstalledSoftware) -> bool {
    a.name@ == b.name@ && a.version@ == b.version@
}

/// Some record in `s` shares `sw`'s (name, version) key.
pub open spec fn key_seen(s: Seq<InstalledSoftware>, sw: InstalledSoftware) -> bool {
    exists|j: int| 0 <= j < s.len() && same_key(s[j], sw)
}

/// Deduplication by (name, version): the first occurrence of each key is
/// kept, in scanning order; every later record with an already-seen key is
/// dropped.
pub open spec fn dedup_spec(s: Seq<InstalledSoftware>) -> Seq<InstalledSoftware>
    decreases s.len(),
{
    if s.len() == 0 {
        s
    } else {
        let rest = dedup_spec(s.drop_last());
        if key_seen(s.drop_last(), s.last()) {
            rest
        } else {
            rest.push(s.last())
        }
    }
}

/// What deduplication keeps: a subset of the input holding each input key
/// exactly once.
pub proof fn lemma_dedup_spec(s: Seq<InstalledSoftware>)
    ensures
        forall|x: InstalledSoftware| #[trigger] dedup_spec(s).contains(x) ==> s.contains(x),
        forall|sw: InstalledSoftware| #[trigger] key_seen(s, sw) <==> key_seen(dedup_spec(s), sw),
        forall|i: int, j: int|
            0 <= i < j < dedup_spec(s).len() ==> !same_key(dedup_spec(s)[i], dedup_spec(s)[j]),
    decreases s.len(),
{
    if s.len() == 0 {
    } else {
        let pre = s.drop_last();
        let last = s.last();
        lemma_dedup_spec(pre);
        let d = dedup_spec(s);
        let dp = dedup_spec(pre);
        assert forall|x: InstalledSoftware| #[trigger] d.contains(x) implies s.contains(x) by {
            if key_seen(pre, last) {
                assert(dp.contains(x));
                let j = choose|j: int| 0 <= j < pre.len() && pre[j] == x;
                assert(s[j] == x);
            } else {
                if x == last {
                    assert(s[s.len() - 1] == x);
                } else {
                    let k = choose|k: int| 0 <= k < d.len() && d[k] == x;
                    assert(dp.contains(x));
                    let j = choose|j: int| 0 <= j < pre.len() && pre[j] == x;
                    assert(s[j] == x);
                }
            }
        }
        assert forall|sw: InstalledSoftware| #[trigger] key_seen(s, sw) implies key_seen(d, sw) by {
            let j = choose|j: int| 0 <= j < s.len() && same_key(s[j], sw);
            if j < pre.len() {
                assert(pre[j] == s[j]);
                assert(key_seen(pre, sw));
                let k = choose|k: int| 0 <= k < dp.len() && same_key(dp[k], sw);
                if key_seen(pre, last) {
                    assert(d[k] == dp[k]);
                } else {
                    assert(d[k] == dp[k]);
                }
            } else {
                // j names the last record
                assert(s[j] == last);
                if key_seen(pre, last) {
                    let m = choose|m: int| 0 <= m < pre.len() && same_key(pre[m], last);
                    assert(same_key(pre[m], sw));
                    assert(key_seen(pre, sw));
                    let k = choose|k: int| 0 <= k < dp.len() && same_key(dp[k], sw);
                    assert(d[k] == dp[k]);
                } else {
                    assert(d[d.len() - 1] == last);
                    assert(same_key(d[d.len() - 1], sw));
                }
            }
        }
        assert forall|sw: InstalledSoftware| #[trigger] key_seen(d, sw) implies key_seen(s, sw) by {
            let k = choose|k: int| 0 <= k < d.len() && same_key(d[k], sw);
            if k < dp.len() {
                assert(d[k] == dp[k]);
                assert(key_seen(dp, sw));
                assert(key_seen(pre, sw));
                let j = choose|j: int| 0 <= j < pre.len() && same_key(pre[j], sw);
                assert(pre[j] == s[j]);
                assert(same_key(s[j], sw));
            } else {
                assert(d[k] == last);
                assert(same_key(s[s.len() - 1], sw));
            }
        }
        assert forall|i: int, j: int| 0 <= i < j < d.len() implies !same_key(d[i], d[j]) by {
            if key_seen(pre, last) {
                assert(d[i] == dp[i] && d[j] == dp[j]);
            } else {
                if j < dp.len() {
                    assert(d[i] == dp[i] && d[j] == dp[j]);
                } else {
                    // d[j] is the last record, which has an unseen key
                    assert(d[j] == last);
                    assert(d[i] == dp[i]);
                    if same_key(d[i], d[j]) {
                        assert(key_seen(dp, last));
                        assert(key_seen(pre, last));
                    }
                }
            }
        }
    }
}

fn key_in(out: &Vec<InstalledSoftware>, sw: &InstalledSoftware) -> (r: bool)
    ensures
        r == key_seen(out@, *sw),
{
    let mut k: usize = 0;
    while k < out.len()
        invariant
            k <= out@.len(),
            forall|j: int| 0 <= j < k ==> !same_key(out@[j], *sw),
        decreases out@.len() - k,
    {
        if out[k].name == sw.name && out[k].version == sw.version {
            assert(same_key(out@[k as int], *sw));
            return true;
        }
        k += 1;
    }
    false
}

/// Drops every record whose (name, version) key was already seen earlier
/// in the list; the first occurrence wins.
pub fn dedup_entries(v: &Vec<InstalledSoftware>) -> (r: Vec<InstalledSoftware>)
    ensures
        r@ == dedup_spec(v@),
{
    let mut out: Vec<InstalledSoftware> = Vec::new();
    let mut i: usize = 0;
    proof {
        assert(v@.take(0) =~= Seq::<InstalledSoftware>::empty());
    }
    while i < v.len()
        invariant
            i <= v@.len(),
            out@ == dedup_spec(v@.take(i as int)),
        decreases v@.len() - i,
    {
        proof {
            lemma_dedup_spec(v@.take(i as int));
            assert(v@.take(i + 1 as int).drop_last() =~= v@.take(i as int));
            assert(v@.take(i + 1 as int).last() == v@[i as int]);
        }
        if !key_in(&out, &v[i]) {
            out.push(v[i].clone());
        }
        i += 1;
    }
    proof {
        assert(v@.take(v@.len() as int) =~= v@);
    }
    out
}

/// Case-insensitive order on records, by display name.
pub open spec fn entry_le(a: InstalledSoftware, b: InstalledSoftware) -> bool {
    lex_le_spec(lower_spec(a.name@), lower_spec(b.name@))
}

/// Non-decreasing case-insensitively by name.
pub open spec fn sorted_by_name(s: Seq<InstalledSoftware>) -> bool {
    forall|i: int, j: int| 0 <= i < j < s.len() ==> entry_le(s[i], s[j])
}

fn entry_le_exec(a: &InstalledSoftware, b: &InstalledSoftware) -> (r: bool)
    ensures
        r == entry_le(*a, *b),
{
    let ka = lower_chars(&chars_of(a.name.as_str()));
    let kb = lower_chars(&chars_of(b.name.as_str()));
    lex_le_chars(&ka, &kb)
}

/// Sorts records case-insensitively by name. The result is a permutation
/// of the input; records with equal values stay together under the
/// multiset view.
pub fn sort_by_name(v: &Vec<InstalledSoftware>) -> (r: Vec<InstalledSoftware>)
    ensures
        sorted_by_name(r@),
        r@.to_multiset() == v@.to_multiset(),
{
    let mut out: Vec<InstalledSoftware> = Vec::new();
    let mut i: usize = 0;
    proof {
        assert(v@.take(0) =~= Seq::<InstalledSoftware>::empty());
        assert(v@.take(0).to_multiset() =~= Seq::<InstalledSoftware>::empty().to_multiset());
    }
    while i < v.len()
        invariant
            i <= v@.len(),
            sorted_by_name(out@),
            out@.to_multiset() == v@.take(i as int).to_multiset(),
        decreases v@.len() - i,
    {
        let x = v[i].clone();
        let mut pos: usize = 0;
        while pos < out.len() && entry_le_exec(&out[pos], &x)
            invariant
                pos <= out@.len(),
                forall|k: int| 0 <= k < pos ==> entry_le(out@[k], x),
            decreases out@.len() - pos,
        {
            pos += 1;
        }
        let ghost old_out = out@;
        proof {
            if pos < out@.len() {
                crate::text::lemma_lex_le_total(
                    lower_spec(out@[pos as int].name@),
                    lower_spec(x.name@),
                );
            }
        }
        out.insert(pos, x);
        proof {
            assert(out@ == old_out.insert(pos as int, x));
            assert forall|a: int, b: int| 0 <= a < b < out@.len() implies entry_le(
                out@[a],
                out@[b],
            ) by {
                let xa = out@[a];
                let xb = out@[b];
                if a < pos && b == pos {
                    assert(xa == old_out[a]);
                } else if a == pos && b > pos {
                    assert(xb == old_out[b - 1]);
                    assert(!entry_le(old_out[pos as int], x));
                    assert(entry_le(x, old_out[pos as int]));
                    if b - 1 > pos {
                        assert(entry_le(old_out[pos as int], old_out[b - 1]));
                        crate::text::lemma_lex_le_trans(
                            lower_spec(x.name@),
                            lower_spec(old_out[pos as int].name@),
                            lower_spec(old_out[b - 1].name@),
                        );
                    }
                } else if a < pos && b > pos {
                    assert(xa == old_out[a]);
                    assert(xb == old_out[b - 1]);
                } else if b < pos {
                    assert(xa == old_out[a] && xb == old_out[b]);
                } else if a > pos {
                    assert(xa == old_out[a - 1] && xb == old_out[b - 1]);
                }
            }
            vstd::seq_lib::to_multiset_insert(old_out, pos as int, x);
            vstd::seq_lib::to_multiset_build(v@.take(i as int), v@[i as int]);
            assert(v@.take(i + 1 as int) =~= v@.take(i as int).push(v@[i as int]));
        }
        i += 1;
    }
    proof {
        assert(v@.take(v@.len() as int) =~= v@);
    }
    out
}

/// `sw` carries exactly the name and version that `e` normalizes to.
pub open spec fn key_matches(e: RawRegistryEntry, sw: InstalledSoftware) -> bool {
    sw.name@ == or_empty_spec(e.display_name) && sw.version@ == version_spec(e)
}

/// Every record that survives deduplication and sorting is a parsed one.
proof fn lemma_scan_sound(
    parsed: Seq<InstalledSoftware>,
    d: Seq<InstalledSoftware>,
    r: Seq<InstalledSoftware>,
)
    requires
        d == dedup_spec(parsed),
        r.to_multiset() == d.to_multiset(),
    ensures
        forall|k: int| #![trigger r[k]]
            0 <= k < r.len() ==> exists|p: int| 0 <= p < parsed.len() && parsed[p] == r[k],
{
    lemma_dedup_spec(parsed);
    assert forall|k: int| #![trigger r[k]] 0 <= k < r.len() implies exists|p: int|
        0 <= p < parsed.len() && parsed[p] == r[k] by {
        vstd::seq_lib::to_multiset_contains(r, r[k]);
        vstd::seq_lib::to_multiset_contains(d, r[k]);
        assert(r.contains(r[k]));
        assert(d.contains(r[k]));
        assert(parsed.contains(r[k]));
    }
}

/// Every parsed record leaves a same-key representative in the final list.
proof fn lemma_scan_complete(
    parsed: Seq<InstalledSoftware>,
    d: Seq<InstalledSoftware>,
    r: Seq<InstalledSoftware>,
)
    requires
        d == dedup_spec(parsed),
        r.to_multiset() == d.to_multiset(),
    ensures
        forall|p: int| #![trigger parsed[p]]
            0 <= p < parsed.len() ==> exists|k: int|
                0 <= k < r.len() && same_key(r[k], parsed[p]),
{
    lemma_dedup_spec(parsed);
    assert forall|p: int| #![trigger parsed[p]] 0 <= p < parsed.len() implies exists|k: int|
        0 <= k < r.len() && same_key(r[k], parsed[p]) by {
        assert(same_key(parsed[p], parsed[p]));
        assert(key_seen(parsed, parsed[p]));
        assert(key_seen(d, parsed[p]));
        let q = choose|q: int| 0 <= q < d.len() && same_key(d[q], parsed[p]);
        vstd::seq_lib::to_multiset_contains(d, d[q]);
        vstd::seq_lib::to_multiset_contains(r, d[q]);
        assert(d.contains(d[q]));
        assert(r.contains(d[q]));
        let k = choose|k: int| 0 <= k < r.len() && r[k] == d[q];
        assert(same_key(r[k], parsed[p]));
    }
}

/// Keys stay pairwise distinct through the sorting permutation.
proof fn lemma_scan_distinct(
    parsed: Seq<InstalledSoftware>,
    d: Seq<InstalledSoftware>,
    r: Seq<InstalledSoftware>,
)
    requires
        d == dedup_spec(parsed),
        r.to_multiset() == d.to_multiset(),
    ensures
        forall|a: int, b: int| 0 <= a < b < r.len() ==> !same_key(r[a], r[b]),
{
    lemma_dedup_spec(parsed);
    assert forall|a: int, b: int| 0 <= a < b < r.len() implies !same_key(r[a], r[b]) by {
        if same_key(r[a], r[b]) {
            if r[a] == r[b] {
                let dup = r[a];
                vstd::seq_lib::to_multiset_remove(r, a);
                vstd::seq_lib::to_multiset_contains(r.remove(a), dup);
                assert(r.remove(a)[b - 1] == dup);
                assert(r.remove(a).contains(dup));
                assert(r.to_multiset().count(dup) >= 2);
                assert(d.to_multiset().count(dup) >= 2);
                vstd::seq_lib::to_multiset_contains(d, dup);
                assert(d.contains(dup));
                let qa = choose|qa: int| 0 <= qa < d.len() && d[qa] == dup;
                vstd::seq_lib::to_multiset_remove(d, qa);
                vstd::seq_lib::to_multiset_contains(d.remove(qa), dup);
                assert(d.remove(qa).to_multiset().count(dup) >= 1);
                assert(d.remove(qa).contains(dup));
                let qb = choose|qb: int| 0 <= qb < d.remove(qa).len() && d.remove(qa)[qb] == dup;
                if qb < qa {
                    assert(d[qb] == dup);
                    assert(!same_key(d[qb], d[qa]));
                } else {
                    assert(d[qb + 1] == dup);
                    assert(!same_key(d[qa], d[qb + 1]));
                }
            } else {
                vstd::seq_lib::to_multiset_contains(r, r[a]);
                vstd::seq_lib::to_multiset_contains(r, r[b]);
                vstd::seq_lib::to_multiset_contains(d, r[a]);
                vstd::seq_lib::to_multiset_contains(d, r[b]);
                assert(r.contains(r[a]));
                assert(r.contains(r[b]));
                assert(d.contains(r[a]));
                assert(d.contains(r[b]));
                let qa = choose|qa: int| 0 <= qa < d.len() && d[qa] == r[a];
                let qb = choose|qb: int| 0 <= qb < d.len() && d[qb] == r[b];
                assert(qa != qb);
                if qa < qb {
                    assert(!same_key(d[qa], d[qb]));
                } else {
                    assert(!same_key(d[qb], d[qa]));
                }
            }
        }
    }
}

/// Normalizes the raw subkey values of all uninstall-registry roots, in
/// scanning order: rejects noise entries, resolves versions, deduplicates
/// by (name, version) with the first occurrence winning, and sorts the
/// result case-insensitively by name.
#[verifier::rlimit(60)]
pub fn scan_installed_software(entries: &Vec<RawRegistryEntry>) -> (r: Vec<InstalledSoftware>)
    ensures
        sorted_by_name(r@),
        forall|i: int, j: int| 0 <= i < j < r@.len() ==> !same_key(r@[i], r@[j]),
        forall|i: int| 0 <= i < r@.len() ==> !name_blocked_spec((#[trigger] r@[i]).name@),
        forall|i: int| #![trigger r@[i]]
            0 <= i < r@.len() ==> exists|j: int|
                0 <= j < entries@.len() && entry_matches(entries@[j], r@[i]),
        forall|j: int| #![trigger entries@[j]]
            0 <= j < entries@.len() && parses_ok(entries@[j]) ==> exists|i: int|
                0 <= i < r@.len() && key_matches(entries@[j], r@[i]),
{
    let mut parsed: Vec<InstalledSoftware> = Vec::new();
    let mut i: usize = 0;
    while i < entries.len()
        invariant
            i <= entries@.len(),
            forall|p: int| #![trigger parsed@[p]]
                0 <= p < parsed@.len() ==> exists|j: int|
                    0 <= j < i && entry_matches(entries@[j], parsed@[p]),
            forall|j: int| #![trigger entries@[j]]
                0 <= j < i && parses_ok(entries@[j]) ==> exists|p: int|
                    0 <= p < parsed@.len() && entry_matches(entries@[j], parsed@[p]),
        decreases entries@.len() - i,
    {
        let ghost old_parsed = parsed@;
        match parse_software_entry(&entries[i]) {
            Some(sw) => {
                assert(entry_matches(entries@[i as int], sw));
                parsed.push(sw);
                proof {
                    assert(parsed@ == old_parsed.push(sw));
                    assert(entry_matches(entries@[i as int], parsed@[parsed@.len() - 1]));
                    assert forall|p: int| #![trigger parsed@[p]] 0 <= p < parsed@.len() implies
                        exists|j: int|
                            0 <= j < i + 1 && entry_matches(entries@[j], parsed@[p]) by {
                        if p < old_parsed.len() {
                            assert(parsed@[p] == old_parsed[p]);
                        } else {
                            assert(entry_matches(entries@[i as int], parsed@[p]));
                        }
                    }
                    assert forall|j: int| #![trigger entries@[j]]
                        0 <= j < i + 1 && parses_ok(entries@[j]) implies exists|p: int|
                            0 <= p < parsed@.len() && entry_matches(entries@[j], parsed@[p]) by {
                        if j < i {
                            let p = choose|p: int|
                                0 <= p < old_parsed.len() && entry_matches(
                                    entries@[j],
                                    old_parsed[p],
                                );
                            assert(parsed@[p] == old_parsed[p]);
                            assert(entry_matches(entries@[j], parsed@[p]));
                        } else {
                            assert(entry_matches(entries@[j], parsed@[parsed@.len() - 1]));
                        }
                    }
                }
            },
            None => {
                assert(!parses_ok(entries@[i as int]));
            },
        }
        i += 1;
    }
    let deduped = dedup_entries(&parsed);
    let r = sort_by_name(&deduped);
    proof {
        lemma_scan_sound(parsed@, deduped@, r@);
        lemma_scan_complete(parsed@, deduped@, r@);
        lemma_scan_distinct(parsed@, deduped@, r@);
        assert forall|k: int| #![trigger r@[k]] 0 <= k < r@.len() implies exists|j: int|
            0 <= j < entries@.len() && entry_matches(entries@[j], r@[k]) by {
            let p = choose|p: int| 0 <= p < parsed@.len() && parsed@[p] == r@[k];
            assert(exists|j: int| 0 <= j < entries@.len() && entry_matches(entries@[j], parsed@[p]));
        }
        assert forall|j: int| #![trigger entries@[j]]
            0 <= j < entries@.len() && parses_ok(entries@[j]) implies exists|k: int|
            0 <= k < r@.len() && key_matches(entries@[j], r@[k]) by {
            let p = choose|p: int|
                0 <= p < parsed@.len() && entry_matches(entries@[j], parsed@[p]);
            let k = choose|k: int| 0 <= k < r@.len() && same_key(r@[k], parsed@[p]);
            assert(key_matches(entries@[j], r@[k]));
        }
        // no record with a blocklisted display name survives
        assert forall|i: int| 0 <= i < r@.len() implies !name_blocked_spec(
            (#[trigger] r@[i]).name@,
        ) by {
            let j = choose|j: int| 0 <= j < entries@.len() && entry_matches(entries@[j], r@[i]);
            assert(parses_ok(entries@[j]));
        }
    }
    r
}


} // verus!
