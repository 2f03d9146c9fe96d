use vstd::prelude::*;

use crate::matcher::{first_key_idx, lemma_first_key_idx, lemma_first_key_idx_unique};
use crate::text::{
    chars_of, contains_spec, contains_sub, find_spec, find_sub, split_ws_spec, split_ws_str,
    trim_bounds, trim_spec,
};

verus! {

// Parsing of the package manager's tabular search output. The table has a
// header line naming the columns; the "Id" and "Version" column positions
// in the header fix where each later line is cut. Running the package
// manager is the caller's business; only the pure parse lives here.

/// One parsed package line.
pub struct WingetPackage {
    pub id: String,
    pub name: String,
    pub version: String,
}

/// The fields of one package line, as character sequences.
pub struct WingetRow {
    pub name: Seq<char>,
    pub id: Seq<char>,
    pub version: Seq<char>,
}

impl View for WingetPackage {
    type V = WingetRow;

    open spec fn view(&self) -> WingetRow {
        WingetRow { name: self.name@, id: self.id@, version: self.version@ }
    }
}

impl DeepView for WingetPackage {
    type V = WingetRow;

    open spec fn deep_view(&self) -> WingetRow {
        self.view()
    }
}

/// A line without its trailing carriage return, if it carries one.
pub open spec fn strip_cr_spec(l: Seq<char>) -> Seq<char> {
    if l.len() > 0 && l.last() == '\r' {
        l.drop_last()
    } else {
        l
    }
}

/// The first line-feed position at or after `i`, or the end of the text.
pub open spec fn line_end_spec(s: Seq<char>, i: int) -> int
    decreases s.len() - i,
{
    if !(0 <= i < s.len()) {
        s.len() as int
    } else if s[i] == '\n' {
        i
    } else {
        line_end_spec(s, i + 1)
    }
}

proof fn lemma_line_end(s: Seq<char>, i: int)
    requires
        0 <= i <= s.len(),
    ensures
        i <= line_end_spec(s, i) <= s.len(),
        forall|m: int| i <= m < line_end_spec(s, i) ==> s[m] != '\n',
        line_end_spec(s, i) < s.len() ==> s[line_end_spec(s, i)] == '\n',
    decreases s.len() - i,
{
    if i < s.len() && s[i] != '\n' {
        lemma_line_end(s, i + 1);
    }
}

/// The lines starting at position `i`: each line runs to the next line
/// feed, and loses a trailing carriage return.
pub open spec fn lines_from_spec(s: Seq<char>, i: int) -> Seq<Seq<char>>
    decreases s.len() - i,
{
    if !(0 <= i < s.len()) {
        Seq::empty()
    } else {
        let e0 = line_end_spec(s, i);
        let e = if i <= e0 && e0 <= s.len() {
            e0
        } else {
            s.len() as int
        };
        if e >= s.len() {
            seq![strip_cr_spec(s.subrange(i, s.len() as int))]
        } else {
            seq![strip_cr_spec(s.subrange(i, e))] + lines_from_spec(s, e + 1)
        }
    }
}

/// The lines of the text, as `str::lines` splits them.
pub open spec fn lines_spec(s: Seq<char>) -> Seq<Seq<char>> {
    lines_from_spec(s, 0)
}

/// Splits the text into lines.
#[verifier::loop_isolation(false)]
pub fn lines_of(s: &str) -> (r: Vec<String>)
    ensures
        r.deep_view() == lines_spec(s@),
{
    let v = chars_of(s);
    let n = v.len();
    let mut out: Vec<String> = Vec::new();
    let mut i: usize = 0;
    while i < n
        invariant
            i <= n,
            lines_spec(s@) == out.deep_view() + lines_from_spec(s@, i as int),
        decreases n - i,
    {
        let mut j = i;
        while j < n && v[j] != '\n'
            invariant
                i <= j <= n,
                forall|m: int| i <= m < j ==> s@[m] != '\n',
            decreases n - j,
        {
            j += 1;
        }
        proof {
            lemma_line_end(s@, i as int);
            let e = line_end_spec(s@, i as int);
            if e < j {
                assert(s@[e] != '\n');
            }
            if j < e {
                assert(s@[j as int] != '\n');
            }
            assert(e == j);
        }
        let line = if j > i && v[j - 1] == '\r' {
            String::from_str(s.substring_char(i, j - 1))
        } else {
            String::from_str(s.substring_char(i, j))
        };
        proof {
            let raw = s@.subrange(i as int, j as int);
            if j > i && s@[j - 1] == '\r' {
                assert(raw.last() == s@[j - 1]);
                assert(raw.drop_last() =~= s@.subrange(i as int, j - 1));
                assert(line@ == strip_cr_spec(raw));
            } else {
                if raw.len() > 0 {
                    assert(raw.last() == s@[j - 1]);
                }
                assert(line@ == strip_cr_spec(raw));
            }
        }
        let ghost old_deep = out.deep_view();
        out.push(line);
        proof {
            assert(out.deep_view() =~~= old_deep.push(strip_cr_spec(
                s@.subrange(i as int, j as int),
            )));
            if j < n {
                assert(lines_from_spec(s@, i as int) == seq![strip_cr_spec(
                    s@.subrange(i as int, j as int),
                )] + lines_from_spec(s@, j + 1));
                assert(out.deep_view() + lines_from_spec(s@, j + 1) =~~= old_deep
                    + lines_from_spec(s@, i as int));
            } else {
                assert(lines_from_spec(s@, i as int) =~~= seq![strip_cr_spec(
                    s@.subrange(i as int, j as int),
                )]);
                assert(lines_from_spec(s@, n as int) =~~= Seq::<Seq<char>>::empty());
                assert(out.deep_view() + lines_from_spec(s@, n as int) =~~= old_deep
                    + lines_from_spec(s@, i as int));
            }
        }
        if j < n {
            i = j + 1;
        } else {
            i = n;
        }
    }
    proof {
        assert(lines_from_spec(s@, i as int) =~~= Seq::<Seq<char>>::empty());
        assert(out.deep_view() + Seq::<Seq<char>>::empty() =~~= out.deep_view());
    }
    out
}

/// A header line names both the "Name" and the "Id" column.
pub open spec fn header_pred() -> spec_fn(Seq<char>) -> bool {
    |l: Seq<char>| contains_spec(l, "Name"@) && contains_spec(l, "Id"@)
}

/// The slice `l[a..b]`, or empty when the bounds do not fit the line.
pub open spec fn slice_field_spec(l: Seq<char>, a: int, b: int) -> Seq<char> {
    if 0 <= a <= b <= l.len() {
        l.subrange(a, b)
    } else {
        Seq::empty()
    }
}

/// The first whitespace-separated word, or empty.
pub open spec fn first_word_spec(s: Seq<char>) -> Seq<char> {
    if split_ws_spec(s).len() > 0 {
        split_ws_spec(s)[0]
    } else {
        Seq::empty()
    }
}

/// The rows parsed from the lines at and after `k`, with the column cuts
/// `ip` (where "Id" starts) and `vp` (where "Version" starts): blank lines
/// are skipped, each field is cut at the column positions and trimmed, the
/// version keeps only its first word, and a row without both a name and an
/// id is dropped.
pub open spec fn winget_rows_from(ls: Seq<Seq<char>>, k: int, ip: int, vp: int) -> Seq<WingetRow>
    decreases ls.len() - k,
{
    if !(0 <= k < ls.len()) {
        Seq::empty()
    } else {
        let rest = winget_rows_from(ls, k + 1, ip, vp);
        let line = ls[k];
        if trim_spec(line).len() == 0 {
            rest
        } else {
            let name = trim_spec(slice_field_spec(line, 0, ip));
            let id = trim_spec(slice_field_spec(line, ip, vp));
            let version = first_word_spec(trim_spec(slice_field_spec(line, vp, line.len() as int)));
            if id.len() > 0 && name.len() > 0 {
                seq![WingetRow { name, id, version }] + rest
            } else {
                rest
            }
        }
    }
}

/// Where a column starts in the header, or the fallback position.
pub open spec fn col_pos_spec(header: Seq<char>, label: Seq<char>, fallback: int) -> int {
    match find_spec(header, label) {
        Some(p) => p,
        None => fallback,
    }
}

/// What `parse_winget_output` returns: nothing without a header line;
/// else the rows of the lines after the header and its separator line,
/// cut at the header's "Id" and "Version" column positions.
pub open spec fn parse_winget_spec(s: Seq<char>) -> Seq<WingetRow> {
    let ls = lines_spec(s);
    match first_key_idx(ls, header_pred(), 0) {
        None => Seq::empty(),
        Some(h) => winget_rows_from(
            ls,
            h + 2,
            col_pos_spec(ls[h], "Id"@, 0),
            col_pos_spec(ls[h], "Version"@, ls[h].len() as int),
        ),
    }
}

fn slice_trimmed(line: &String, a: usize, b: usize) -> (r: String)
    ensures
        r@ == trim_spec(slice_field_spec(line@, a as int, b as int)),
{
    let v = chars_of(line.as_str());
    if a <= b && b <= v.len() {
        let inner = crate::text::subvec(&v, a, b);
        let (ta, tb) = trim_bounds(&inner);
        proof {
            assert(inner@ == slice_field_spec(line@, a as int, b as int));
            assert(inner@.subrange(ta as int, tb as int) =~= line@.subrange(
                a + ta,
                a + tb,
            ));
        }
        String::from_str(line.as_str().substring_char(a + ta, a + tb))
    } else {
        proof {
            let e = Seq::<char>::empty();
            assert(crate::text::trim_start_spec(e) =~= e);
            assert(trim_spec(slice_field_spec(line@, a as int, b as int)) =~= e);
        }
        String::new()
    }
}

fn first_word(s: &String) -> (r: String)
    ensures
        r@ == first_word_spec(s@),
{
    let words = split_ws_str(s.as_str());
    if words.len() > 0 {
        let w = words[0].clone();
        proof {
            assert(words.deep_view()[0] == words@[0]@);
        }
        w
    } else {
        String::new()
    }
}

/// Parses the package manager's tabular search output: finds the header
/// line, reads the "Id" and "Version" column positions from it, and cuts
/// every line after the separator into a name, an id and a version.
#[verifier::loop_isolation(false)]
pub fn parse_winget_output(output: &str) -> (r: Vec<WingetPackage>)
    ensures
        r.deep_view() == parse_winget_spec(output@),
{
    let lines = lines_of(output);
    let ghost ls = lines_spec(output@);

    // find the header line
    let name_label = chars_of("Name");
    let id_label = chars_of("Id");
    let mut h: usize = 0;
    let mut found = false;
    while h < lines.len() && !found
        invariant
            h <= lines@.len(),
            lines.deep_view() == ls,
            lines@.len() == ls.len(),
            !found ==> forall|k: int| 0 <= k < h ==> !header_pred()(ls[k]),
            found ==> h < ls.len() && header_pred()(ls[h as int]) && forall|k: int|
                0 <= k < h ==> !header_pred()(ls[k]),
        decreases lines@.len() - h, (if found { 0int } else { 1int }),
    {
        let lv = chars_of(lines[h].as_str());
        proof {
            assert(lv@ == ls[h as int]);
        }
        if contains_sub(&lv, &name_label) && contains_sub(&lv, &id_label) {
            found = true;
        } else {
            h += 1;
        }
    }
    if !found {
        proof {
            lemma_first_key_idx(ls, header_pred(), 0);
            match first_key_idx(ls, header_pred(), 0) {
                Some(k) => {
                    assert(!header_pred()(ls[k]));
                },
                None => {},
            }
        }
        return Vec::new();
    }
    proof {
        lemma_first_key_idx_unique(ls, header_pred(), h as int);
    }

    // read the column positions from the header
    let header = chars_of(lines[h].as_str());
    proof {
        assert(header@ == ls[h as int]);
    }
    let id_pos = match find_sub(&header, &id_label) {
        Some(p) => p,
        None => 0,
    };
    let version_label = chars_of("Version");
    let version_pos = match find_sub(&header, &version_label) {
        Some(p) => p,
        None => header.len(),
    };
    let ghost ip = col_pos_spec(ls[h as int], "Id"@, 0);
    let ghost vp = col_pos_spec(ls[h as int], "Version"@, ls[h as int].len() as int);
    proof {
        assert(id_pos as int == ip);
        assert(version_pos as int == vp);
    }

    // cut each line after the separator into a row
    let mut out: Vec<WingetPackage> = Vec::new();
    let mut k = if lines.len() - h >= 2 {
        h + 2
    } else {
        lines.len()
    };
    proof {
        assert(parse_winget_spec(output@) == winget_rows_from(ls, h + 2, ip, vp));
        if k == lines.len() && h + 2 != k {
            assert(winget_rows_from(ls, h + 2, ip, vp) =~~= Seq::<WingetRow>::empty());
            assert(winget_rows_from(ls, k as int, ip, vp) =~~= Seq::<WingetRow>::empty());
        }
    }
    while k < lines.len()
        invariant
            k <= lines@.len(),
            lines.deep_view() == ls,
            lines@.len() == ls.len(),
            id_pos as int == ip,
            version_pos as int == vp,
            parse_winget_spec(output@) == out.deep_view() + winget_rows_from(ls, k as int, ip, vp),
        decreases lines@.len() - k,
    {
        let line = &lines[k];
        proof {
            assert(line@ == ls[k as int]);
        }
        let lv = chars_of(line.as_str());
        let (ta, tb) = trim_bounds(&lv);
        if ta == tb {
            proof {
                assert(trim_spec(ls[k as int]).len() == 0);
            }
            k += 1;
            continue;
        }
        let name = slice_trimmed(line, 0, id_pos);
        let id = slice_trimmed(line, id_pos, version_pos);
        let tail = slice_trimmed(line, version_pos, lv.len());
        let version = first_word(&tail);
        proof {
            assert(trim_spec(ls[k as int]).len() > 0) by {
                assert(trim_spec(ls[k as int]) == lv@.subrange(ta as int, tb as int));
            }
        }
        if id.as_str().unicode_len() > 0 && name.as_str().unicode_len() > 0 {
            let ghost old_deep = out.deep_view();
            let package = WingetPackage { id, name, version };
            let ghost row = package@;
            out.push(package);
            proof {
                assert(out.deep_view() =~~= old_deep.push(row));
                assert(winget_rows_from(ls, k as int, ip, vp) == seq![row] + winget_rows_from(
                    ls,
                    k + 1,
                    ip,
                    vp,
                ));
                assert(out.deep_view() + winget_rows_from(ls, k + 1, ip, vp) =~~= old_deep
                    + winget_rows_from(ls, k as int, ip, vp));
            }
        } else {
            proof {
                assert(winget_rows_from(ls, k as int, ip, vp) == winget_rows_from(
                    ls,
                    k + 1,
                    ip,
                    vp,
                ));
            }
        }
        k += 1;
    }
    proof {
        assert(winget_rows_from(ls, k as int, ip, vp) =~~= Seq::<WingetRow>::empty());
        assert(out.deep_view() + Seq::<WingetRow>::empty() =~~= out.deep_view());
    }
    out
}

} // verus!
