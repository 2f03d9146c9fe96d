use vstd::prelude::*;

use crate::text::{lex_le_spec, lex_le_chars, chars_of, lemma_lex_le_total, lemma_lex_le_trans};

verus! {

// The alternatives catalog: an immutable mapping from canonical commercial
// product names to ordered lists of free/open-source substitutes. It is
// rebuilt from the same fixed definition on every call, is never mutated,
// and is kept as an ordered list so that every traversal over its keys is
// reproducible (a hash-ordered traversal would make fuzzy matching depend
// on incidental iteration order).

/// One free/open-source application: a pure value with no identity beyond
/// its fields.
pub struct FossApp {
    pub name: String,
    pub description: String,
    pub website: String,
    pub download_url: String,
    pub license: String,
    pub category: String,
    pub icon: String,
    pub winget_id: Option<String>,
}

impl Clone for FossApp {
    /// Field-for-field copy.
    fn clone(&self) -> (r: Self)
        ensures
            r == *self,
    {
        FossApp {
            name: self.name.clone(),
            description: self.description.clone(),
            website: self.website.clone(),
            download_url: self.download_url.clone(),
            license: self.license.clone(),
            category: self.category.clone(),
            icon: self.icon.clone(),
            winget_id: match &self.winget_id {
                Some(s) => Some(s.clone()),
                None => None,
            },
        }
    }
}

/// One catalog entry: a commercial product name and its ordered substitutes.
pub struct FossAlternative {
    pub paid_software: String,
    pub alternatives: Vec<FossApp>,
}

/// The names of a list of applications, in order.
pub open spec fn app_names(apps: Seq<FossApp>) -> Seq<Seq<char>> {
    apps.map_values(|a: FossApp| a.name@)
}

/// The catalog's keys, in their fixed order.
pub open spec fn catalog_keys_spec() -> Seq<Seq<char>> {
    seq![
        "Adobe Premiere Pro"@,
        "Adobe Photoshop"@,
        "Microsoft Office"@,
        "Microsoft 365"@,
        "WinRAR"@,
        "Sublime Text"@,
        "Adobe Illustrator"@,
        "iTunes"@,
        "3ds Max"@,
        "Maya"@,
        "Cinema 4D"@,
        "LastPass"@,
        "1Password"@,
        "Adobe Audition"@,
        "Snagit"@,
    ]
}

/// The substitute names under each catalog key, in curation order.
pub open spec fn catalog_app_names_spec(i: int) -> Seq<Seq<char>> {
    if i == 0 {
        seq!["DaVinci Resolve"@, "Kdenlive"@, "Shotcut"@]
    } else if i == 1 {
        seq!["GIMP"@, "Krita"@]
    } else if i == 2 || i == 3 {
        seq!["LibreOffice"@, "OnlyOffice"@]
    } else if i == 4 {
        seq!["7-Zip"@, "PeaZip"@]
    } else if i == 5 {
        seq!["VS Code"@, "Notepad++"@]
    } else if i == 6 {
        seq!["Inkscape"@]
    } else if i == 7 {
        seq!["VLC Media Player"@]
    } else if i == 8 || i == 9 || i == 10 {
        seq!["Blender"@]
    } else if i == 11 || i == 12 {
        seq!["Bitwarden"@, "KeePassXC"@]
    } else if i == 13 {
        seq!["Audacity"@]
    } else if i == 14 {
        seq!["ShareX"@, "Greenshot"@]
    } else {
        Seq::empty()
    }
}

fn app(
    name: &str,
    description: &str,
    website: &str,
    download_url: &str,
    license: &str,
    category: &str,
    icon: &str,
    winget_id: &str,
) -> (r: FossApp)
    ensures
        r.name@ == name@,
        r.description@ == description@,
        r.website@ == website@,
        r.download_url@ == download_url@,
        r.license@ == license@,
        r.category@ == category@,
        r.icon@ == icon@,
        r.winget_id matches Some(w) && w@ == winget_id@,
{
    FossApp {
        name: String::from_str(name),
        description: String::from_str(description),
        website: String::from_str(website),
        download_url: String::from_str(download_url),
        license: String::from_str(license),
        category: String::from_str(category),
        icon: String::from_str(icon),
        winget_id: Some(String::from_str(winget_id)),
    }
}

pub(crate) fn clone_apps(v: &Vec<FossApp>) -> (r: Vec<FossApp>)
    ensures
        r@ == v@,
{
    let mut r: Vec<FossApp> = Vec::new();
    let mut i: usize = 0;
    while i < v.len()
        invariant
            i <= v@.len(),
            r@ == v@.subrange(0, i as int),
        decreases v@.len() - i,
    {
        r.push(v[i].clone());
        assert(v@.subrange(0, i + 1 as int) =~= v@.subrange(0, i as int).push(v@[i as int]));
        i += 1;
    }
    assert(v@.subrange(0, v@.len() as int) =~= v@);
    r
}

fn entry(key: &str, alternatives: Vec<FossApp>) -> (r: FossAlternative)
    ensures
        r.paid_software@ == key@,
        r.alternatives@ == alternatives@,
{
    FossAlternative { paid_software: String::from_str(key), alternatives }
}

/// Builds the fixed alternatives catalog, in its documented key order.
/// Aliased keys (Microsoft 365, Maya, Cinema 4D, 1Password) carry exactly
/// the same substitute list as their primary key.
pub fn get_foss_database() -> (r: Vec<FossAlternative>)
    ensures
        r@.len() == catalog_keys_spec().len(),
        forall|i: int|
            0 <= i < r@.len() ==> (#[trigger] r@[i]).paid_software@ == catalog_keys_spec()[i]
                && app_names(r@[i].alternatives@) == catalog_app_names_spec(i),
        r@[3].alternatives@ == r@[2].alternatives@,
        r@[9].alternatives@ == r@[8].alternatives@,
        r@[10].alternatives@ == r@[8].alternatives@,
        r@[12].alternatives@ == r@[11].alternatives@,
{
    let mut db: Vec<FossAlternative> = Vec::new();

    // Video editing
    let mut apps: Vec<FossApp> = Vec::new();
    apps.push(
        app(
            "DaVinci Resolve",
            "Professional video editing, color correction, and audio post-production",
            "https://www.blackmagicdesign.com/products/davinciresolve",
            "https://www.blackmagicdesign.com/products/davinciresolve",
            "Freemium",
            "Video Editing",
            "🎬",
            "BlackmagicDesign.DaVinciResolve",
        ),
    );
    apps.push(
        app(
            "Kdenlive",
            "Powerful multi-track video editor with a sleek interface",
            "https://kdenlive.org",
            "https://kdenlive.org/en/download/",
            "GPL-3.0",
            "Video Editing",
            "🎥",
            "KDE.Kdenlive",
        ),
    );
    apps.push(
        app(
            "Shotcut",
            "Cross-platform video editor with wide format support",
            "https://shotcut.org",
            "https://shotcut.org/download/",
            "GPL-3.0",
            "Video Editing",
            "📹",
            "Meltytech.Shotcut",
        ),
    );
    assert(app_names(apps@) =~= catalog_app_names_spec(0));
    db.push(entry("Adobe Premiere Pro", apps));

    // Image editing
    let mut apps: Vec<FossApp> = Vec::new();
    apps.push(
        app(
            "GIMP",
            "Full-featured image editor with extensive plugin support",
            "https://www.gimp.org",
            "https://www.gimp.org/downloads/",
            "GPL-3.0",
            "Image Editing",
            "🖼️",
            "GIMP.GIMP",
        ),
    );
    apps.push(
        app(
            "Krita",
            "Digital painting and illustration focused application",
            "https://krita.org",
            "https://krita.org/en/download/",
            "GPL-3.0",
            "Image Editing",
            "🎨",
            "KDE.Krita",
        ),
    );
    assert(app_names(apps@) =~= catalog_app_names_spec(1));
    db.push(entry("Adobe Photoshop", apps));

    // Office suite
    let mut apps: Vec<FossApp> = Vec::new();
    apps.push(
        app(
            "LibreOffice",
            "Complete office suite with Writer, Calc, Impress, and more",
            "https://www.libreoffice.org",
            "https://www.libreoffice.org/download/download/",
            "MPL-2.0",
            "Office",
            "📝",
            "TheDocumentFoundation.LibreOffice",
        ),
    );
    apps.push(
        app(
            "OnlyOffice",
            "Modern office suite with high MS Office compatibility",
            "https://www.onlyoffice.com",
            "https://www.onlyoffice.com/download-desktop.aspx",
            "AGPL-3.0",
            "Office",
            "📊",
            "ONLYOFFICE.DesktopEditors",
        ),
    );
    assert(app_names(apps@) =~= catalog_app_names_spec(2));
    let office_copy = clone_apps(&apps);
    db.push(entry("Microsoft Office", apps));
    db.push(entry("Microsoft 365", office_copy));

    // Archive tools
    let mut apps: Vec<FossApp> = Vec::new();
    apps.push(
        app(
            "7-Zip",
            "High compression ratio archiver with wide format support",
            "https://www.7-zip.org",
            "https://www.7-zip.org/download.html",
            "LGPL-2.1",
            "Utilities",
            "📦",
            "7zip.7zip",
        ),
    );
    apps.push(
        app(
            "PeaZip",
            "Feature-rich archive manager with strong encryption",
            "https://peazip.github.io",
            "https://peazip.github.io/peazip-64bit.html",
            "LGPL-3.0",
            "Utilities",
            "🗜️",
            "Giorgiotani.Peazip",
        ),
    );
    assert(app_names(apps@) =~= catalog_app_names_spec(4));
    db.push(entry("WinRAR", apps));

    // Code editors
    let mut apps: Vec<FossApp> = Vec::new();
    apps.push(
        app(
            "VS Code",
            "Powerful code editor with extensive extension ecosystem",
            "https://code.visualstudio.com",
            "https://code.visualstudio.com/Download",
            "MIT",
            "Development",
            "💻",
            "Microsoft.VisualStudioCode",
        ),
    );
    apps.push(
        app(
            "Notepad++",
            "Lightweight, fast text and code editor for Windows",
            "https://notepad-plus-plus.org",
            "https://notepad-plus-plus.org/downloads/",
            "GPL-3.0",
            "Development",
            "📄",
            "Notepad++.Notepad++",
        ),
    );
    assert(app_names(apps@) =~= catalog_app_names_spec(5));
    db.push(entry("Sublime Text", apps));

    // Vector graphics
    let mut apps: Vec<FossApp> = Vec::new();
    apps.push(
        app(
            "Inkscape",
            "Professional vector graphics editor",
            "https://inkscape.org",
            "https://inkscape.org/release/",
            "GPL-3.0",
            "Design",
            "✏️",
            "Inkscape.Inkscape",
        ),
    );
    assert(app_names(apps@) =~= catalog_app_names_spec(6));
    db.push(entry("Adobe Illustrator", apps));

    // Media players
    let mut apps: Vec<FossApp> = Vec::new();
    apps.push(
        app(
            "VLC Media Player",
            "Plays virtually any media format without codecs",
            "https://www.videolan.org",
            "https://www.videolan.org/vlc/",
            "GPL-2.0",
            "Media",
            "🎵",
            "VideoLAN.VLC",
        ),
    );
    assert(app_names(apps@) =~= catalog_app_names_spec(7));
    db.push(entry("iTunes", apps));

    // 3D modeling
    let mut apps: Vec<FossApp> = Vec::new();
    apps.push(
        app(
            "Blender",
            "Complete 3D creation suite with modeling, animation, and rendering",
            "https://www.blender.org",
            "https://www.blender.org/download/",
            "GPL-3.0",
            "3D",
            "🧊",
            "BlenderFoundation.Blender",
        ),
    );
    assert(app_names(apps@) =~= catalog_app_names_spec(8));
    let blender_copy = clone_apps(&apps);
    let blender_copy2 = clone_apps(&apps);
    db.push(entry("3ds Max", apps));
    db.push(entry("Maya", blender_copy));
    db.push(entry("Cinema 4D", blender_copy2));

    // Password managers
    let mut apps: Vec<FossApp> = Vec::new();
    apps.push(
        app(
            "Bitwarden",
            "Secure, open-source password manager",
            "https://bitwarden.com",
            "https://bitwarden.com/download/",
            "GPL-3.0",
            "Security",
            "🔐",
            "Bitwarden.Bitwarden",
        ),
    );
    apps.push(
        app(
            "KeePassXC",
            "Cross-platform password manager with local storage",
            "https://keepassxc.org",
            "https://keepassxc.org/download/",
            "GPL-3.0",
            "Security",
            "🔑",
            "KeePassXCTeam.KeePassXC",
        ),
    );
    assert(app_names(apps@) =~= catalog_app_names_spec(11));
    let password_copy = clone_apps(&apps);
    db.push(entry("LastPass", apps));
    db.push(entry("1Password", password_copy));

    // Audio editing
    let mut apps: Vec<FossApp> = Vec::new();
    apps.push(
        app(
            "Audacity",
            "Multi-track audio editor and recorder",
            "https://www.audacityteam.org",
            "https://www.audacityteam.org/download/",
            "GPL-3.0",
            "Audio",
            "🎙️",
            "Audacity.Audacity",
        ),
    );
    assert(app_names(apps@) =~= catalog_app_names_spec(13));
    db.push(entry("Adobe Audition", apps));

    // Screen capture
    let mut apps: Vec<FossApp> = Vec::new();
    apps.push(
        app(
            "ShareX",
            "Powerful screenshot and screen recording tool",
            "https://getsharex.com",
            "https://getsharex.com/downloads",
            "GPL-3.0",
            "Utilities",
            "📸",
            "ShareX.ShareX",
        ),
    );
    apps.push(
        app(
            "Greenshot",
            "Light-weight screenshot tool with annotation",
            "https://getgreenshot.org",
            "https://getgreenshot.org/downloads/",
            "GPL-3.0",
            "Utilities",
            "🖼️",
            "Greenshot.Greenshot",
        ),
    );
    assert(app_names(apps@) =~= catalog_app_names_spec(14));
    db.push(entry("Snagit", apps));

    db
}

/// Two applications that count as the same for browsing: equal names.
pub open spec fn same_name(a: FossApp, b: FossApp) -> bool {
    a.name@ == b.name@
}

/// Some application in `s` carries `x`'s name.
pub open spec fn name_seen(s: Seq<FossApp>, x: FossApp) -> bool {
    exists|j: int| 0 <= j < s.len() && same_name(s[j], x)
}

/// Deduplication by name: the first occurrence of each name is kept, in
/// catalog order.
pub open spec fn dedup_apps_spec(s: Seq<FossApp>) -> Seq<FossApp>
    decreases s.len(),
{
    if s.len() == 0 {
        s
    } else {
        let rest = dedup_apps_spec(s.drop_last());
        if name_seen(s.drop_last(), s.last()) {
            rest
        } else {
            rest.push(s.last())
        }
    }
}

/// What deduplication keeps: a subset of the input holding each input name
/// exactly once.
proof fn lemma_dedup_apps_spec(s: Seq<FossApp>)
    ensures
        forall|x: FossApp| #[trigger] dedup_apps_spec(s).contains(x) ==> s.contains(x),
        forall|x: FossApp| #[trigger] name_seen(s, x) <==> name_seen(dedup_apps_spec(s), x),
        forall|i: int, j: int|
            0 <= i < j < dedup_apps_spec(s).len() ==> !same_name(
                dedup_apps_spec(s)[i],
                dedup_apps_spec(s)[j],
            ),
    decreases s.len(),
{
    if s.len() == 0 {
    } else {
        let pre = s.drop_last();
        let last = s.last();
        lemma_dedup_apps_spec(pre);
        let d = dedup_apps_spec(s);
        let dp = dedup_apps_spec(pre);
        assert forall|x: FossApp| #[trigger] d.contains(x) implies s.contains(x) by {
            if !name_seen(pre, last) && x == last {
                assert(s[s.len() - 1] == x);
            } else {
                assert(dp.contains(x));
                let j = choose|j: int| 0 <= j < pre.len() && pre[j] == x;
                assert(s[j] == x);
            }
        }
        assert forall|x: FossApp| #[trigger] name_seen(s, x) implies name_seen(d, x) by {
            let j = choose|j: int| 0 <= j < s.len() && same_name(s[j], x);
            if j < pre.len() {
                assert(pre[j] == s[j]);
                assert(name_seen(pre, x));
                let k = choose|k: int| 0 <= k < dp.len() && same_name(dp[k], x);
                assert(d[k] == dp[k]);
            } else {
                assert(s[j] == last);
                if name_seen(pre, last) {
                    let m = choose|m: int| 0 <= m < pre.len() && same_name(pre[m], last);
                    assert(same_name(pre[m], x));
                    assert(name_seen(pre, x));
                    let k = choose|k: int| 0 <= k < dp.len() && same_name(dp[k], x);
                    assert(d[k] == dp[k]);
                } else {
                    assert(d[d.len() - 1] == last);
                    assert(same_name(d[d.len() - 1], x));
                }
            }
        }
        assert forall|x: FossApp| #[trigger] name_seen(d, x) implies name_seen(s, x) by {
            let k = choose|k: int| 0 <= k < d.len() && same_name(d[k], x);
            if k < dp.len() {
                assert(d[k] == dp[k]);
                assert(name_seen(dp, x));
                assert(name_seen(pre, x));
                let j = choose|j: int| 0 <= j < pre.len() && same_name(pre[j], x);
                assert(pre[j] == s[j]);
                assert(same_name(s[j], x));
            } else {
                assert(d[k] == last);
                assert(same_name(s[s.len() - 1], x));
            }
        }
        assert forall|i: int, j: int| 0 <= i < j < d.len() implies !same_name(d[i], d[j]) by {
            if name_seen(pre, last) {
                assert(d[i] == dp[i] && d[j] == dp[j]);
            } else {
                if j < dp.len() {
                    assert(d[i] == dp[i] && d[j] == dp[j]);
                } else {
                    assert(d[j] == last);
                    assert(d[i] == dp[i]);
                    if same_name(d[i], d[j]) {
                        assert(name_seen(dp, last));
                        assert(name_seen(pre, last));
                    }
                }
            }
        }
    }
}

fn name_in(out: &Vec<FossApp>, x: &FossApp) -> (r: bool)
    ensures
        r == name_seen(out@, *x),
{
    let mut k: usize = 0;
    while k < out.len()
        invariant
            k <= out@.len(),
            forall|j: int| 0 <= j < k ==> !same_name(out@[j], *x),
        decreases out@.len() - k,
    {
        if out[k].name == x.name {
            assert(same_name(out@[k as int], *x));
            return true;
        }
        k += 1;
    }
    false
}

fn dedup_apps(v: &Vec<FossApp>) -> (r: Vec<FossApp>)
    ensures
        r@ == dedup_apps_spec(v@),
{
    let mut out: Vec<FossApp> = Vec::new();
    let mut i: usize = 0;
    proof {
        assert(v@.take(0) =~= Seq::<FossApp>::empty());
    }
    while i < v.len()
        invariant
            i <= v@.len(),
            out@ == dedup_apps_spec(v@.take(i as int)),
        decreases v@.len() - i,
    {
        proof {
            lemma_dedup_apps_spec(v@.take(i as int));
            assert(v@.take(i + 1 as int).drop_last() =~= v@.take(i as int));
            assert(v@.take(i + 1 as int).last() == v@[i as int]);
        }
        if !name_in(&out, &v[i]) {
            out.push(v[i].clone());
        }
        i += 1;
    }
    proof {
        assert(v@.take(v@.len() as int) =~= v@);
    }
    out
}

/// Order for the browsing list: by name, by character code.
pub open spec fn app_le(a: FossApp, b: FossApp) -> bool {
    lex_le_spec(a.name@, b.name@)
}

/// Non-decreasing by name, by character code.
pub open spec fn sorted_apps(s: Seq<FossApp>) -> bool {
    forall|i: int, j: int| 0 <= i < j < s.len() ==> app_le(s[i], s[j])
}

fn app_le_exec(a: &FossApp, b: &FossApp) -> (r: bool)
    ensures
        r == app_le(*a, *b),
{
    let ka = chars_of(a.name.as_str());
    let kb = chars_of(b.name.as_str());
    lex_le_chars(&ka, &kb)
}

fn sort_apps(v: &Vec<FossApp>) -> (r: Vec<FossApp>)
    ensures
        sorted_apps(r@),
        r@.to_multiset() == v@.to_multiset(),
{
    let mut out: Vec<FossApp> = Vec::new();
    let mut i: usize = 0;
    proof {
        assert(v@.take(0) =~= Seq::<FossApp>::empty());
        assert(v@.take(0).to_multiset() =~= Seq::<FossApp>::empty().to_multiset());
    }
    while i < v.len()
        invariant
            i <= v@.len(),
            sorted_apps(out@),
            out@.to_multiset() == v@.take(i as int).to_multiset(),
        decreases v@.len() - i,
    {
        let x = v[i].clone();
        let mut pos: usize = 0;
        while pos < out.len() && app_le_exec(&out[pos], &x)
            invariant
                pos <= out@.len(),
                forall|k: int| 0 <= k < pos ==> app_le(out@[k], x),
            decreases out@.len() - pos,
        {
            pos += 1;
        }
        let ghost old_out = out@;
        proof {
            if pos < out@.len() {
                lemma_lex_le_total(out@[pos as int].name@, x.name@);
            }
        }
        out.insert(pos, x);
        proof {
            assert(out@ == old_out.insert(pos as int, x));
            assert forall|a: int, b: int| 0 <= a < b < out@.len() implies app_le(
                out@[a],
                out@[b],
            ) by {
                if a < pos && b == pos {
                    assert(out@[a] == old_out[a]);
                } else if a == pos && b > pos {
                    assert(out@[b] == old_out[b - 1]);
                    assert(!app_le(old_out[pos as int], x));
                    assert(app_le(x, old_out[pos as int]));
                    if b - 1 > pos {
                        assert(app_le(old_out[pos as int], old_out[b - 1]));
                        lemma_lex_le_trans(
                            x.name@,
                            old_out[pos as int].name@,
                            old_out[b - 1].name@,
                        );
                    }
                } else if a < pos && b > pos {
                    assert(out@[a] == old_out[a]);
                    assert(out@[b] == old_out[b - 1]);
                } else if b < pos {
                    assert(out@[a] == old_out[a] && out@[b] == old_out[b]);
                } else if a > pos {
                    assert(out@[a] == old_out[a - 1] && out@[b] == old_out[b - 1]);
                }
            }
            vstd::seq_lib::to_multiset_insert(old_out, pos as int, x);
            vstd::seq_lib::to_multiset_build(v@.take(i as int), v@[i as int]);
            assert(v@.take(i + 1 as int) =~= v@.take(i as int).push(v@[i as int]));
        }
        i += 1;
    }
    proof {
        assert(v@.take(v@.len() as int) =~= v@);
    }
    out
}

/// `x`'s name stands somewhere in the catalog.
pub open spec fn name_in_catalog(x: FossApp) -> bool {
    exists|i: int|
        0 <= i < catalog_keys_spec().len() && #[trigger] catalog_app_names_spec(i).contains(
            x.name@,
        )
}

/// Flattens the catalog into one browsing list: every substitute appears
/// once by name (the first catalog occurrence wins), sorted by name.
#[verifier::rlimit(100)]
#[verifier::spinoff_prover]
pub fn get_all_foss_apps() -> (r: Vec<FossApp>)
    ensures
        sorted_apps(r@),
        forall|i: int, j: int| 0 <= i < j < r@.len() ==> !same_name(r@[i], r@[j]),
        forall|k: int| 0 <= k < r@.len() ==> name_in_catalog(#[trigger] r@[k]),
        forall|i: int, j: int|
            0 <= i < catalog_keys_spec().len() && 0 <= j < catalog_app_names_spec(i).len()
                ==> exists|k: int|
                0 <= k < r@.len() && r@[k].name@ == #[trigger] catalog_app_names_spec(i)[j],
{
    let db = get_foss_database();
    let mut flat: Vec<FossApp> = Vec::new();
    let mut i: usize = 0;
    while i < db.len()
        invariant
            i <= db@.len(),
            db@.len() == catalog_keys_spec().len(),
            forall|e: int|
                0 <= e < db@.len() ==> app_names((#[trigger] db@[e]).alternatives@)
                    == catalog_app_names_spec(e),
            forall|k: int| 0 <= k < flat@.len() ==> name_in_catalog(#[trigger] flat@[k]),
            forall|e: int, j: int|
                0 <= e < i && 0 <= j < catalog_app_names_spec(e).len() ==> exists|k: int|
                    0 <= k < flat@.len() && flat@[k].name@ == #[trigger] catalog_app_names_spec(
                        e,
                    )[j],
        decreases db@.len() - i,
    {
        let apps = &db[i].alternatives;
        let mut j: usize = 0;
        while j < apps.len()
            invariant
                i < db@.len(),
                j <= apps@.len(),
                apps@ == db@[i as int].alternatives@,
                db@.len() == catalog_keys_spec().len(),
                forall|e: int|
                    0 <= e < db@.len() ==> app_names((#[trigger] db@[e]).alternatives@)
                        == catalog_app_names_spec(e),
                forall|k: int| 0 <= k < flat@.len() ==> name_in_catalog(#[trigger] flat@[k]),
                forall|e: int, jj: int|
                    0 <= e < i && 0 <= jj < catalog_app_names_spec(e).len() ==> exists|k: int|
                        0 <= k < flat@.len() && flat@[k].name@ == #[trigger] catalog_app_names_spec(
                            e,
                        )[jj],
                forall|jj: int|
                    0 <= jj < j ==> exists|k: int|
                        0 <= k < flat@.len() && flat@[k].name@ == #[trigger] catalog_app_names_spec(
                            i as int,
                        )[jj],
            decreases apps@.len() - j,
        {
            let ghost old_flat = flat@;
            flat.push(apps[j].clone());
            proof {
                let names = catalog_app_names_spec(i as int);
                assert(app_names(db@[i as int].alternatives@) == names);
                assert(names[j as int] == apps@[j as int].name@);
                assert(flat@[flat@.len() - 1].name@ == names[j as int]);
                assert(names.contains(apps@[j as int].name@));
                assert(name_in_catalog(flat@[flat@.len() - 1]));
                assert forall|k: int| 0 <= k < flat@.len() implies name_in_catalog(
                    #[trigger] flat@[k],
                ) by {
                    if k < old_flat.len() {
                        assert(flat@[k] == old_flat[k]);
                    }
                }
                assert forall|e: int, jj: int|
                    0 <= e < i && 0 <= jj < catalog_app_names_spec(e).len() implies exists|k: int|
                        0 <= k < flat@.len() && flat@[k].name@ == #[trigger] catalog_app_names_spec(
                            e,
                        )[jj] by {
                    let k = choose|k: int|
                        0 <= k < old_flat.len() && old_flat[k].name@ == catalog_app_names_spec(
                            e,
                        )[jj];
                    assert(flat@[k] == old_flat[k]);
                }
                assert forall|jj: int| 0 <= jj < j + 1 implies exists|k: int|
                    0 <= k < flat@.len() && flat@[k].name@ == #[trigger] catalog_app_names_spec(
                        i as int,
                    )[jj] by {
                    if jj < j {
                        let k = choose|k: int|
                            0 <= k < old_flat.len() && old_flat[k].name@
                                == catalog_app_names_spec(i as int)[jj];
                        assert(flat@[k] == old_flat[k]);
                    } else {
                        assert(flat@[flat@.len() - 1].name@ == catalog_app_names_spec(
                            i as int,
                        )[jj]);
                    }
                }
            }
            j += 1;
        }
        proof {
            assert(app_names(db@[i as int].alternatives@).len() == catalog_app_names_spec(
                i as int,
            ).len());
            assert(apps@.len() == catalog_app_names_spec(i as int).len());
            assert forall|e: int, j2: int|
                0 <= e < i + 1 && 0 <= j2 < catalog_app_names_spec(e).len() implies exists|k: int|
                    0 <= k < flat@.len() && flat@[k].name@ == #[trigger] catalog_app_names_spec(
                        e,
                    )[j2] by {
                if e == i {
                    assert(j2 < j);
                    assert(exists|k: int|
                        0 <= k < flat@.len() && flat@[k].name@ == catalog_app_names_spec(
                            i as int,
                        )[j2]);
                }
            }
        }
        i += 1;
    }
    let deduped = dedup_apps(&flat);
    let r = sort_apps(&deduped);
    proof {
        lemma_dedup_apps_spec(flat@);
        let d = deduped@;
        // sorted output holds exactly the catalog's names, each once
        assert forall|k: int| 0 <= k < r@.len() implies name_in_catalog(#[trigger] r@[k]) by {
            vstd::seq_lib::to_multiset_contains(r@, r@[k]);
            vstd::seq_lib::to_multiset_contains(d, r@[k]);
            assert(r@.contains(r@[k]));
            assert(d.contains(r@[k]));
            assert(flat@.contains(r@[k]));
            let p = choose|p: int| 0 <= p < flat@.len() && flat@[p] == r@[k];
            assert(name_in_catalog(flat@[p]));
        }
        assert forall|i2: int, j2: int|
            0 <= i2 < catalog_keys_spec().len() && 0 <= j2 < catalog_app_names_spec(
                i2,
            ).len() implies exists|k: int|
            0 <= k < r@.len() && r@[k].name@ == #[trigger] catalog_app_names_spec(i2)[j2] by {
            let p = choose|p: int|
                0 <= p < flat@.len() && flat@[p].name@ == catalog_app_names_spec(i2)[j2];
            assert(same_name(flat@[p], flat@[p]));
            assert(name_seen(flat@, flat@[p]));
            assert(name_seen(d, flat@[p]));
            let q = choose|q: int| 0 <= q < d.len() && same_name(d[q], flat@[p]);
            vstd::seq_lib::to_multiset_contains(d, d[q]);
            vstd::seq_lib::to_multiset_contains(r@, d[q]);
            assert(d.contains(d[q]));
            assert(r@.contains(d[q]));
            let k = choose|k: int| 0 <= k < r@.len() && r@[k] == d[q];
            assert(r@[k].name@ == catalog_app_names_spec(i2)[j2]);
        }
        assert forall|a: int, b: int| 0 <= a < b < r@.len() implies !same_name(r@[a], r@[b]) by {
            if same_name(r@[a], r@[b]) {
                if r@[a] == r@[b] {
                    let dup = r@[a];
                    vstd::seq_lib::to_multiset_remove(r@, a);
                    vstd::seq_lib::to_multiset_contains(r@.remove(a), dup);
                    assert(r@.remove(a)[b - 1] == dup);
                    assert(r@.remove(a).contains(dup));
                    assert(r@.to_multiset().count(dup) >= 2);
                    assert(d.to_multiset().count(dup) >= 2);
                    vstd::seq_lib::to_multiset_contains(d, dup);
                    assert(d.contains(dup));
                    let qa = choose|qa: int| 0 <= qa < d.len() && d[qa] == dup;
                    vstd::seq_lib::to_multiset_remove(d, qa);
                    vstd::seq_lib::to_multiset_contains(d.remove(qa), dup);
                    assert(d.remove(qa).to_multiset().count(dup) >= 1);
                    assert(d.remove(qa).contains(dup));
                    let qb = choose|qb: int|
                        0 <= qb < d.remove(qa).len() && d.remove(qa)[qb] == dup;
                    if qb < qa {
                        assert(d[qb] == dup);
                        assert(!same_name(d[qb], d[qa]));
                    } else {
                        assert(d[qb + 1] == dup);
                        assert(!same_name(d[qa], d[qb + 1]));
                    }
                } else {
                    vstd::seq_lib::to_multiset_contains(r@, r@[a]);
                    vstd::seq_lib::to_multiset_contains(r@, r@[b]);
                    vstd::seq_lib::to_multiset_contains(d, r@[a]);
                    vstd::seq_lib::to_multiset_contains(d, r@[b]);
                    assert(r@.contains(r@[a]));
                    assert(r@.contains(r@[b]));
                    assert(d.contains(r@[a]));
                    assert(d.contains(r@[b]));
                    let qa = choose|qa: int| 0 <= qa < d.len() && d[qa] == r@[a];
                    let qb = choose|qb: int| 0 <= qb < d.len() && d[qb] == r@[b];
                    assert(qa != qb);
                    if qa < qb {
                        assert(!same_name(d[qa], d[qb]));
                    } else {
                        assert(!same_name(d[qb], d[qa]));
                    }
                }
            }
        }
    }
    r
}

} // verus!
