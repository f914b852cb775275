//! Rewriting manifests: where the outputs section of a manifest's text
//! lies, and the runtime requirements that a scan writes into its outputs.
use vstd::prelude::*;
use vstd::utf8::encode_utf8;
use vstd::utf8::encode_scalar;
use vstd::string::StringSliceAdditionalSpecFns;
use crate::builder::manifest::Manifest;
use crate::builder::manifest::OutputSpec;
use crate::builder::runtime::RuntimeScanResult;
use crate::builder::runtime::category_view;
use crate::builder::runtime::category_wf;
use crate::sorted::seq_lt;
use crate::sorted::kv_map;
use crate::sorted::key_set;
use crate::sorted::lemma_kv_keys;
use crate::text::to_owned_string;
use crate::text::trim_seq;
use crate::text::trim_end_seq;
use crate::text::trim;
use crate::text::trim_end;
use crate::text::str_eq;
use crate::text::substring;
use crate::text::push_str;
use crate::text::starts_with;
use crate::text::ends_with;
use crate::text::is_prefix;
use crate::text::is_suffix;
use crate::text::leading_ws;
use crate::text::lemma_leading_ws_bound;
use crate::text::lines_seq;
use crate::text::join_seq;
use crate::text::join_range;
use crate::builder::manifest::ManifestKind;
use crate::builder::manifest::Dependency;
use crate::text::split_seq;

verus! {

/// Where the line that starts at `p` ends: after its newline, or at the end.
pub open spec fn line_end(s: Seq<char>, p: int) -> int
    decreases s.len() - p,
{
    if p >= s.len() {
        s.len() as int
    } else if s[p] == '\n' {
        p + 1
    } else {
        line_end(s, p + 1)
    }
}

/// A line starts at `p`.
pub open spec fn line_starts_at(s: Seq<char>, p: int) -> bool {
    0 <= p < s.len() && (p == 0 || s[p - 1] == '\n')
}

/// The line that starts at `p`, with its newline.
pub open spec fn line_at(s: Seq<char>, p: int) -> Seq<char> {
    s.subrange(p, line_end(s, p))
}

/// A line that is not indented by a space or a tab.
pub open spec fn unindented(line: Seq<char>) -> bool {
    !(line.len() > 0 && (line[0] == ' ' || line[0] == '\t'))
}

/// The top-level key line "outputs:".
pub open spec fn is_outputs_header(line: Seq<char>) -> bool {
    unindented(line) && trim_end_seq(line) == "outputs:"@
}

/// A top-level line of another section.
pub open spec fn ends_outputs(line: Seq<char>) -> bool {
    unindented(line) && trim_seq(trim_end_seq(line)).len() > 0 && trim_seq(trim_end_seq(line))
        != "outputs:"@
}

/// The character positions of the outputs section: its header is the first
/// "outputs:" line, and it ends at the first later line of another
/// top-level key, or at the end of the text.
pub open spec fn outputs_block(s: Seq<char>, a: int, b: int) -> bool {
    &&& line_starts_at(s, a) && is_outputs_header(line_at(s, a))
    &&& forall|q: int| 0 <= q < a && line_starts_at(s, q) ==> !is_outputs_header(#[trigger] line_at(s, q))
    &&& a < b <= s.len()
    &&& b < s.len() ==> line_starts_at(s, b) && ends_outputs(line_at(s, b))
    &&& forall|q: int| a < q < b && line_starts_at(s, q) ==> !ends_outputs(#[trigger] line_at(s, q))
}

/// No line is the outputs header.
pub open spec fn no_outputs_block(s: Seq<char>) -> bool {
    forall|q: int| line_starts_at(s, q) ==> !is_outputs_header(#[trigger] line_at(s, q))
}

/// The encoding of a concatenation is the concatenation of the encodings.
proof fn lemma_encode_concat(a: Seq<char>, b: Seq<char>)
    ensures
        encode_utf8(a + b) == encode_utf8(a) + encode_utf8(b),
    decreases a.len(),
{
    if a.len() > 0 {
        lemma_encode_concat(a.drop_first(), b);
        assert((a + b).drop_first() =~= a.drop_first() + b);
        assert((a + b)[0] == a[0]);
    } else {
        assert(a + b =~= b);
    }
}

/// The byte offset of character position `k`: the length of the UTF-8
/// encoding of the characters before it.
fn byte_offset(s: &str, k: usize) -> (r: usize)
    requires
        k <= s@.len(),
    ensures
        r == encode_utf8(s@.subrange(0, k as int)).len(),
{
    let total_bytes = s.as_bytes().len();
    let mut total: usize = 0;
    let mut i: usize = 0;
    proof {
        assert(s@.subrange(0, 0) =~= Seq::<char>::empty());
    }
    while i < k
        invariant
            k <= s@.len(),
            total_bytes == encode_utf8(s@).len(),
            i <= k,
            total == encode_utf8(s@.subrange(0, i as int)).len(),
        decreases k - i,
    {
        let c = s.get_char(i);
        let u = c as u32;
        let w: usize = if u < 0x80 {
            1
        } else if u < 0x800 {
            2
        } else if u < 0x10000 {
            3
        } else {
            4
        };
        proof {
            let pre = s@.subrange(0, i as int);
            lemma_encode_concat(pre, seq![c]);
            assert(s@.subrange(0, i + 1) =~= pre + seq![c]);
            assert(encode_utf8(seq![c]) =~= encode_scalar(c as u32) + encode_utf8(seq![c].drop_first()));
            assert(encode_utf8(seq![c].drop_first()) =~= Seq::<u8>::empty());
            vstd::utf8::char_is_scalar(c);
            assert(encode_scalar(c as u32).len() == w);
            lemma_encode_concat(s@.subrange(0, i + 1), s@.subrange(i + 1, s@.len() as int));
            assert(s@.subrange(0, i + 1) + s@.subrange(i + 1, s@.len() as int) =~= s@);
        }
        total = total + w;
        i += 1;
    }
    total
}

/// The position after the line that starts at `p`.
fn find_line_end(s: &str, p: usize) -> (r: usize)
    requires
        p <= s@.len(),
    ensures
        r == line_end(s@, p as int),
        p < r <= s@.len() || (p == s@.len() && r == p),
{
    let n = s.unicode_len();
    let mut i: usize = p;
    while i < n && s.get_char(i) != '\n'
        invariant
            n == s@.len(),
            p <= i <= n,
            line_end(s@, i as int) == line_end(s@, p as int),
        decreases n - i,
    {
        i += 1;
    }
    if i < n {
        i + 1
    } else {
        i
    }
}

/// Line starts between `p` and the end of its line: none.
proof fn lemma_no_start_inside(s: Seq<char>, p: int, q: int)
    requires
        0 <= p < q < line_end(s, p),
    ensures
        !line_starts_at(s, q),
    decreases s.len() - p,
{
    if s[p] != '\n' {
        if q > p + 1 {
            lemma_no_start_inside(s, p + 1, q);
        }
    }
}

/// The end of a line is past its start, and a line starts there when it is
/// not the end of the text.
proof fn lemma_line_end_props(s: Seq<char>, p: int)
    requires
        0 <= p < s.len(),
    ensures
        p < line_end(s, p) <= s.len(),
        line_end(s, p) < s.len() ==> line_starts_at(s, line_end(s, p)),
    decreases s.len() - p,
{
    if s[p] != '\n' {
        if p + 1 < s.len() {
            lemma_line_end_props(s, p + 1);
        } else {
            assert(line_end(s, p + 1) == s.len());
        }
    }
}

/// The character positions of the outputs section, as byte offsets: from
/// the "outputs:" header line to the next top-level key, or to the end.
pub fn locate_outputs_block(contents: &str) -> (r: Result<(usize, usize), String>)
    ensures
        match r {
            Ok((a, b)) => exists|ca: int, cb: int|
                outputs_block(contents@, ca, cb) && a == encode_utf8(contents@.subrange(0, ca)).len()
                    && b == encode_utf8(contents@.subrange(0, cb)).len(),
            Err(m) => no_outputs_block(contents@) && m@ == "Unable to locate outputs section"@,
        },
{
    let ghost s = contents@;
    let n = contents.unicode_len();
    let mut start: Option<usize> = None;
    let mut end: usize = n;
    let mut done = false;
    let mut p: usize = 0;
    while p < n && !done
        invariant
            n == s.len(),
            s == contents@,
            p <= n,
            p < n ==> line_starts_at(s, p as int),
            !done ==> end == n,
            done ==> start is Some && end == p && p < n && ends_outputs(line_at(s, p as int)),
            start is None ==> !done && forall|q: int| 0 <= q < p && line_starts_at(s, q) ==> !is_outputs_header(#[trigger] line_at(s, q)),
            start matches Some(a) ==> (a < p || (done && a < end)) && line_starts_at(s, a as int) && is_outputs_header(line_at(s, a as int))
                && (forall|q: int| 0 <= q < a && line_starts_at(s, q) ==> !is_outputs_header(#[trigger] line_at(s, q)))
                && (forall|q: int| a < q < p && line_starts_at(s, q) ==> !ends_outputs(#[trigger] line_at(s, q))),
        decreases n - p, (if done { 0int } else { 1int }),
    {
        let le = find_line_end(contents, p);
        proof {
            lemma_line_end_props(s, p as int);
            assert forall|q: int| p < q < le implies !line_starts_at(s, q) by {
                lemma_no_start_inside(s, p as int, q);
            }
        }
        let line = substring(contents, p, le);
        let trimmed = trim_end(line.as_str());
        let indented = line.as_str().unicode_len() > 0 && (line.as_str().get_char(0) == ' '
            || line.as_str().get_char(0) == '\t');
        let mut stop = false;
        match start {
            None => {
                if !indented && str_eq(trimmed.as_str(), "outputs:") {
                    start = Some(p);
                }
            },
            Some(_) => {
                let tws = trim(trimmed.as_str());
                let top = !indented && tws.as_str().unicode_len() > 0;
                if top && !str_eq(tws.as_str(), "outputs:") {
                    stop = true;
                }
            },
        }
        if stop {
            end = p;
            done = true;
        } else if le == n {
            p = n;
        } else {
            p = le;
        }
    }
    match start {
        Some(a) => {
            proof {
                assert(outputs_block(s, a as int, end as int));
            }
            let ba = byte_offset(contents, a);
            let bb = byte_offset(contents, end);
            Ok((ba, bb))
        },
        None => {
            proof {
                assert forall|q: int| line_starts_at(s, q) implies !is_outputs_header(#[trigger] line_at(s, q)) by {}
            }
            Err(to_owned_string("Unable to locate outputs section"))
        },
    }
}

/// Strictly increasing texts.
pub open spec fn strictly_sorted(v: Seq<Seq<char>>) -> bool {
    forall|i: int, j: int| 0 <= i < j < v.len() ==> seq_lt(#[trigger] v[i], #[trigger] v[j])
}

/// The requirements of an output after a scan: the commits that the scan
/// resolved for its category, in order, or none.
pub open spec fn scanned_requires(r: RuntimeScanResult, category: Seq<char>, req: Seq<Seq<char>>) -> bool {
    if r.resolved_view().contains_key(category) {
        strictly_sorted(req) && req.to_set() == r.resolved_view()[category].dom()
    } else {
        req.len() == 0
    }
}

/// The text of each string.
pub open spec fn texts(v: Seq<String>) -> Seq<Seq<char>> {
    v.map_values(|s: String| s@)
}

/// The commits of a category's entries, in order.
fn commits_of(w: &Vec<(String, Vec<String>)>) -> (r: Vec<String>)
    requires
        category_wf(*w),
    ensures
        strictly_sorted(texts(r@)),
        texts(r@).to_set() == category_view(*w).dom(),
{
    let mut out: Vec<String> = Vec::new();
    let mut i: usize = 0;
    while i < w.len()
        invariant
            category_wf(*w),
            i <= w@.len(),
            out@.len() == i,
            texts(out@) == w@.subrange(0, i as int).map_values(|e: (String, Vec<String>)| e.0@),
        decreases w@.len() - i,
    {
        let ghost before = out@;
        out.push(to_owned_string(w[i].0.as_str()));
        proof {
            assert(out@ == before.push(out@[i as int]));
            assert(texts(out@) =~= texts(before).push(w@[i as int].0@));
            assert(w@.subrange(0, i + 1).map_values(|e: (String, Vec<String>)| e.0@) =~= w@.subrange(0, i as int).map_values(|e: (String, Vec<String>)| e.0@).push(w@[i as int].0@));
        }
        i += 1;
    }
    proof {
        let ks = texts(out@);
        assert(ks =~= w@.map_values(|e: (String, Vec<String>)| e.0@));
        assert forall|a: int, b: int| 0 <= a < b < ks.len() implies seq_lt(#[trigger] ks[a], #[trigger] ks[b]) by {
            assert(seq_lt(w@[a].0@, w@[b].0@));
        }
        let f = |s: Vec<String>| crate::sorted::str_set(s@);
        assert forall|k: Seq<char>| #![auto] ks.to_set().contains(k) == category_view(*w).dom().contains(k) by {
            lemma_kv_keys(w@, f, k);
            if ks.to_set().contains(k) {
                let q = choose|q: int| 0 <= q < ks.len() && ks[q] == k;
                assert(ks.contains(k));
                assert(w@[q].0@ == k);
            }
            if key_set(w@).contains(k) {
                let q = choose|q: int| 0 <= q < w@.len() && w@[q].0@ == k;
                assert(ks[q] == k);
                assert(ks.contains(k));
            }
        }
        assert(ks.to_set() =~= category_view(*w).dom());
    }
    out
}

/// Writes the scanned runtime requirements into each output of the manifest.
pub fn apply_runtime_requires(manifest: &mut Manifest, suggestions: &RuntimeScanResult)
    requires
        suggestions.wf(),
    ensures
        final(manifest).package == old(manifest).package,
        final(manifest).dependencies == old(manifest).dependencies,
        final(manifest).sources == old(manifest).sources,
        final(manifest).build == old(manifest).build,
        final(manifest).bundles == old(manifest).bundles,
        final(manifest).outputs@.len() == old(manifest).outputs@.len(),
        forall|i: int| 0 <= i < final(manifest).outputs@.len() ==> {
            let (c, o) = #[trigger] final(manifest).outputs@[i];
            &&& c == old(manifest).outputs@[i].0
            &&& o.files == old(manifest).outputs@[i].1.files
            &&& o.suggests == old(manifest).outputs@[i].1.suggests
            &&& scanned_requires(*suggestions, c@, texts(o.requires@))
        },
{
    let mut old_outputs: Vec<(String, OutputSpec)> = Vec::new();
    std::mem::swap(&mut old_outputs, &mut manifest.outputs);
    let ghost orig = old_outputs@;
    let n = old_outputs.len();
    let mut outputs: Vec<(String, OutputSpec)> = Vec::new();
    let mut i: usize = 0;
    while i < n
        invariant
            suggestions.wf(),
            n == orig.len(),
            i <= n,
            old_outputs@ == orig.subrange(i as int, n as int),
            outputs@.len() == i,
            manifest.package == old(manifest).package,
            manifest.dependencies == old(manifest).dependencies,
            manifest.sources == old(manifest).sources,
            manifest.build == old(manifest).build,
            manifest.bundles == old(manifest).bundles,
            orig == old(manifest).outputs@,
            forall|j: int| 0 <= j < i ==> {
                let (c, o) = #[trigger] outputs@[j];
                &&& c == orig[j].0
                &&& o.files == orig[j].1.files
                &&& o.suggests == orig[j].1.suggests
                &&& scanned_requires(*suggestions, c@, texts(o.requires@))
            },
        decreases n - i,
    {
        let (category, spec) = old_outputs.remove(0);
        proof {
            assert(old_outputs@ =~= orig.subrange(i + 1, n as int));
        }
        let new_requires = match suggestions.category_resolved(category.as_str()) {
            Some(w) => commits_of(w),
            None => {
                proof {
                    assert(texts(Seq::<String>::empty()) =~= Seq::empty());
                }
                Vec::new()
            },
        };
        let OutputSpec { files, requires: _, suggests } = spec;
        outputs.push((category, OutputSpec { files, requires: new_requires, suggests }));
        i += 1;
    }
    manifest.outputs = outputs;
}

/// Where the scan for the checksum of a manifest's section stands after
/// some lines: in the section or not, the section's header line, its last
/// line so far, the indentation of its first non-blank line, and the line
/// that replaces a checksum line once one is found (the scan stops there).
pub struct ChecksumScan {
    pub in_section: bool,
    pub header: Option<nat>,
    pub last: Option<nat>,
    pub indent: Option<Seq<char>>,
    pub replaced: Option<(nat, Seq<char>)>,
}

/// The quote around a checksum value: `"` or `'` when the value is wrapped
/// in it, else none.
pub open spec fn value_quote(v: Seq<char>) -> Seq<char> {
    if v.len() >= 2 && v[0] == '"' && v.last() == '"' {
        "\""@
    } else if v.len() >= 2 && v[0] == '\'' && v.last() == '\'' {
        "'"@
    } else {
        Seq::empty()
    }
}

/// The indentation to write: the section's, or two spaces.
pub open spec fn indent_or_default(indent: Option<Seq<char>>) -> Seq<char> {
    match indent {
        Some(i) => i,
        None => "  "@,
    }
}

/// One line of the scan, at index `idx`.
pub open spec fn checksum_step(
    st: ChecksumScan,
    idx: nat,
    line: Seq<char>,
    tag: Seq<char>,
    checksum: Seq<char>,
) -> ChecksumScan {
    if st.replaced is Some {
        st
    } else {
        let trimmed = trim_seq(line);
        let in1 = if st.in_section && unindented(line) && trimmed.len() > 0 {
            false
        } else {
            st.in_section
        };
        if !in1 && trimmed == tag {
            ChecksumScan { in_section: true, header: Some(idx), ..st }
        } else if in1 {
            let indent1 = if st.indent is None && trimmed.len() > 0 {
                Some(line.subrange(0, leading_ws(line) as int))
            } else {
                st.indent
            };
            let ts = line.subrange(leading_ws(line) as int, line.len() as int);
            let replaced = if is_prefix("checksum:"@, ts) {
                let v = trim_seq(ts.subrange(9, ts.len() as int));
                let q = value_quote(v);
                Some((idx, indent_or_default(indent1) + "checksum: "@ + q + checksum + q))
            } else {
                None
            };
            ChecksumScan { in_section: true, header: st.header, last: Some(idx), indent: indent1, replaced }
        } else {
            ChecksumScan { in_section: false, ..st }
        }
    }
}

/// The scan over the first lines.
pub open spec fn checksum_scan(lines: Seq<Seq<char>>, tag: Seq<char>, checksum: Seq<char>) -> ChecksumScan
    decreases lines.len(),
{
    if lines.len() == 0 {
        ChecksumScan { in_section: false, header: None, last: None, indent: None, replaced: None }
    } else {
        checksum_step(
            checksum_scan(lines.drop_last(), tag, checksum),
            (lines.len() - 1) as nat,
            lines.last(),
            tag,
            checksum,
        )
    }
}

/// The name of a manifest's main section.
pub open spec fn section_name(kind: ManifestKind) -> Seq<char> {
    match kind {
        ManifestKind::Package => "package"@,
        ManifestKind::System => "system"@,
    }
}

/// The manifest text with its checksum set: the checksum line of the
/// section replaced (keeping its quotes), or one added after the
/// section's last line; an error when the section is missing.
pub open spec fn checksum_update(contents: Seq<char>, kind: ManifestKind, checksum: Seq<char>) -> Result<
    Seq<char>,
    Seq<char>,
> {
    let ls = lines_seq(contents);
    let st = checksum_scan(ls, section_name(kind) + ":"@, checksum);
    match st.header {
        None => Err("Manifest missing "@ + section_name(kind) + " section"@),
        Some(h) => {
            let new_lines = match st.replaced {
                Some((i, l)) => ls.update(i as int, l),
                None => {
                    let at = match st.last {
                        Some(l) => l,
                        None => h,
                    };
                    ls.insert(at + 1int, indent_or_default(st.indent) + "checksum: "@ + checksum)
                },
            };
            Ok(join_seq(new_lines, "\n"@) + if is_suffix("\n"@, contents) {
                "\n"@
            } else {
                Seq::empty()
            })
        },
    }
}

/// The scan state that the variables of the scan stand for.
pub open spec fn scan_view(
    h: Option<usize>,
    l: Option<usize>,
    ind: Option<String>,
    rp: Option<(usize, String)>,
    ins: bool,
) -> ChecksumScan {
    ChecksumScan {
        in_section: ins,
        header: match h {
            Some(x) => Some(x as nat),
            None => None,
        },
        last: match l {
            Some(x) => Some(x as nat),
            None => None,
        },
        indent: match ind {
            Some(s) => Some(s@),
            None => None,
        },
        replaced: match rp {
            Some((i, s)) => Some((i as nat, s@)),
            None => None,
        },
    }
}

/// The checksum line, keeping the quotes of the old value.
fn checksum_line(indent: &Option<String>, old_value: &str, checksum: &str) -> (r: String)
    ensures
        r@ == indent_or_default(
            match indent {
                Some(i) => Some(i@),
                None => None,
            },
        ) + "checksum: "@ + value_quote(old_value@) + checksum@ + value_quote(old_value@),
{
    let mut l = match indent {
        Some(i) => to_owned_string(i.as_str()),
        None => to_owned_string("  "),
    };
    push_str(&mut l, "checksum: ");
    let n = old_value.unicode_len();
    let q = if n >= 2 && old_value.get_char(0) == '"' && old_value.get_char(n - 1) == '"' {
        "\""
    } else if n >= 2 && old_value.get_char(0) == '\'' && old_value.get_char(n - 1) == '\'' {
        "'"
    } else {
        ""
    };
    proof {
        reveal_strlit("");
    }
    push_str(&mut l, q);
    push_str(&mut l, checksum);
    push_str(&mut l, q);
    l
}

/// Sets the checksum of a package (or system) manifest's text, keeping the
/// rest of the text as it is.
pub fn update_checksum_text(contents: &str, kind: ManifestKind, new_checksum: &str) -> (r: Result<String, String>)
    ensures
        match (r, checksum_update(contents@, kind, new_checksum@)) {
            (Ok(t), Ok(u)) => t@ == u,
            (Err(e), Err(u)) => e@ == u,
            _ => false,
        },
{
    let block = match kind {
        ManifestKind::Package => "package",
        ManifestKind::System => "system",
    };
    let mut tag = to_owned_string(block);
    push_str(&mut tag, ":");
    let ghost tg = tag@;
    let mut lines = crate::text::lines(contents);
    let ghost ls = lines.deep_view();
    let mut in_section = false;
    let mut header: Option<usize> = None;
    let mut last: Option<usize> = None;
    let mut indent: Option<String> = None;
    let mut replaced: Option<(usize, String)> = None;
    let mut idx: usize = 0;
    while idx < lines.len()
        invariant
            idx <= lines@.len(),
            ls == lines.deep_view(),
            tg == tag@,
            header matches Some(h) ==> h < idx,
            last matches Some(l) ==> l < idx,
            replaced matches Some((i, _)) ==> i < idx,
            scan_view(header, last, indent, replaced, in_section) == checksum_scan(
                ls.subrange(0, idx as int),
                tg,
                new_checksum@,
            ),
        decreases lines@.len() - idx,
    {
        proof {
            assert(ls.subrange(0, idx + 1).drop_last() =~= ls.subrange(0, idx as int));
            assert(ls.subrange(0, idx + 1).last() == lines@[idx as int]@);
        }
        let ghost st = scan_view(header, last, indent, replaced, in_section);
        let ghost line_v = lines@[idx as int]@;
        if replaced.is_none() {
            let line = lines[idx].as_str();
            let trimmed = trim(line);
            let n = line.unicode_len();
            let indented = n > 0 && (line.get_char(0) == ' ' || line.get_char(0) == '\t');
            proof {
                assert(indented == !unindented(line@));
            }
            if in_section && !indented && trimmed.unicode_len() > 0 {
                in_section = false;
            }
            if !in_section && str_eq(trimmed.as_str(), tag.as_str()) {
                in_section = true;
                header = Some(idx);
                proof {
                    assert(st.replaced is None);
                    assert(line@ == line_v);
                    assert(trimmed@ == trim_seq(line_v));
                    assert(trimmed@ == tg);
                    let v2 = scan_view(header, last, indent, replaced, in_section);
                    assert(v2.header == Some(idx as nat));
                    assert(v2.in_section);
                    assert(v2.last == st.last);
                    assert(v2.indent == st.indent);
                    assert(v2.replaced == st.replaced);
                    assert(scan_view(header, last, indent, replaced, in_section) == checksum_step(
                        st,
                        idx as nat,
                        line_v,
                        tg,
                        new_checksum@,
                    ));
                }
            } else if in_section {
                let w = crate::text::leading_ws_len(line);
                proof {
                    lemma_leading_ws_bound(line@);
                }
                if indent.is_none() && trimmed.unicode_len() > 0 {
                    indent = Some(substring(line, 0, w));
                }
                last = Some(idx);
                let ts = substring(line, w, n);
                if starts_with(ts.as_str(), "checksum:") {
                    proof {
                        reveal_strlit("checksum:");
                    }
                    let rest = substring(ts.as_str(), 9, ts.unicode_len());
                    let value = trim(rest.as_str());
                    let l = checksum_line(&indent, value.as_str(), new_checksum);
                    replaced = Some((idx, l));
                    proof {
                        assert(scan_view(header, last, indent, replaced, in_section) == checksum_step(
                            st,
                            idx as nat,
                            line_v,
                            tg,
                            new_checksum@,
                        ));
                    }
                } else {
                    proof {
                        assert(scan_view(header, last, indent, replaced, in_section) == checksum_step(
                            st,
                            idx as nat,
                            line_v,
                            tg,
                            new_checksum@,
                        ));
                    }
                }
            } else {
                proof {
                    assert(scan_view(header, last, indent, replaced, in_section) == checksum_step(
                        st,
                        idx as nat,
                        line_v,
                        tg,
                        new_checksum@,
                    ));
                }
            }
        }
        idx += 1;
    }
    proof {
        assert(ls.subrange(0, lines@.len() as int) =~= ls);
        assert(tg == section_name(kind) + ":"@);
    }
    let ghost fin = scan_view(header, last, indent, replaced, in_section);
    let h = match header {
        Some(h) => h,
        None => {
            let mut e = to_owned_string("Manifest missing ");
            push_str(&mut e, block);
            push_str(&mut e, " section");
            return Err(e);
        },
    };
    let ghost expected: Seq<Seq<char>>;
    match replaced {
        Some((i, l)) => {
            proof {
                expected = ls.update(i as int, l@);
            }
            let ghost before = lines@;
            lines.set(i, l);
            proof {
                assert(lines.deep_view() =~= expected);
            }
        },
        None => {
            let at = match last {
                Some(l) => l,
                None => h,
            };
            let mut l = match indent {
                Some(ind) => ind,
                None => to_owned_string("  "),
            };
            push_str(&mut l, "checksum: ");
            push_str(&mut l, new_checksum);
            proof {
                expected = ls.insert(at + 1int, l@);
            }
            lines.insert(at + 1, l);
            proof {
                assert(lines.deep_view() =~= expected);
            }
        },
    }
    let ghost nl = lines.deep_view();
    let mut out = join_range(&lines, 0, lines.len(), "\n");
    proof {
        assert(nl.subrange(0, nl.len() as int) =~= nl);
        assert(out@ == join_seq(expected, "\n"@));
    }
    if ends_with(contents, "\n") {
        push_str(&mut out, "\n");
    } else {
        proof {
            assert(out@ =~= join_seq(expected, "\n"@) + Seq::<char>::empty());
        }
    }
    Ok(out)
}

/// Where the dependencies section of a manifest's lines lies: its header
/// line (the last `dependencies:` line before the section ends) and the
/// first line after it, once found.
pub open spec fn deps_section_step(st: (Option<nat>, Option<nat>), idx: nat, line: Seq<char>) -> (Option<nat>, Option<nat>) {
    if st.1 is Some {
        st
    } else if is_prefix("dependencies:"@, line) {
        (Some(idx), None)
    } else if st.0 is Some && line.len() > 0 && line[0] != ' ' && line[0] != '\t' && line[0] != '-' {
        (st.0, Some(idx))
    } else {
        st
    }
}

/// The section scan over lines.
pub open spec fn deps_section(lines: Seq<Seq<char>>) -> (Option<nat>, Option<nat>)
    decreases lines.len(),
{
    if lines.len() == 0 {
        (None, None)
    } else {
        deps_section_step(deps_section(lines.drop_last()), (lines.len() - 1) as nat, lines.last())
    }
}

/// The lines of a dependencies section listing `deps`.
pub open spec fn deps_section_lines(deps: Seq<Dependency>) -> Seq<Seq<char>>
    decreases deps.len(),
{
    if deps.len() == 0 {
        seq!["dependencies:"@]
    } else {
        let d = deps.last();
        deps_section_lines(deps.drop_last()) + match d.name {
            Some(n) => seq!["  - name: "@ + n@, "    commit: "@ + d.commit@],
            None => seq!["  - commit: "@ + d.commit@],
        }
    }
}

/// The manifest text with its dependencies section replaced by `deps`.
pub open spec fn hydrated_text(contents: Seq<char>, deps: Seq<Dependency>) -> Result<Seq<char>, Seq<char>> {
    let ls = lines_seq(contents);
    let (start, stop) = deps_section(ls);
    match start {
        None => Err("No dependencies section found in manifest"@),
        Some(a) => {
            let b = match stop {
                Some(b) => b as int,
                None => ls.len() as int,
            };
            let new_lines = ls.subrange(0, a as int) + deps_section_lines(deps) + ls.subrange(b, ls.len() as int);
            Ok(join_seq(new_lines, "\n"@) + if is_suffix("\n"@, contents) {
                "\n"@
            } else {
                Seq::empty()
            })
        },
    }
}

/// A dependency on `commit` named after its second path component.
pub open spec fn hydrated_name(commit: Seq<char>) -> Option<Seq<char>> {
    let parts = split_seq(commit, '/');
    if parts.len() > 1 {
        Some(parts[1])
    } else {
        None
    }
}

/// A dependency of the hydrated list: the commit, named after the second
/// component of its path (`x86_64/zlib/...` is named `zlib`).
pub fn hydrated_dependency(commit: &str) -> (r: Dependency)
    ensures
        r.commit@ == commit@,
        match r.name {
            Some(n) => hydrated_name(commit@) == Some(n@),
            None => hydrated_name(commit@) is None,
        },
        r.manifest_ref is None,
{
    let parts = crate::text::split_char(commit, '/');
    let name = if parts.len() > 1 {
        Some(to_owned_string(parts[1].as_str()))
    } else {
        None
    };
    Dependency { commit: to_owned_string(commit), name, manifest_ref: None }
}

/// Replaces the dependencies section of a manifest's text with `deps`,
/// keeping the other lines.
pub fn hydrate_dependencies_text(contents: &str, deps: &Vec<Dependency>) -> (r: Result<String, String>)
    ensures
        match (r, hydrated_text(contents@, deps@)) {
            (Ok(t), Ok(u)) => t@ == u,
            (Err(e), Err(u)) => e@ == u,
            _ => false,
        },
{
    let lines = crate::text::lines(contents);
    let ghost ls = lines.deep_view();
    let mut start: Option<usize> = None;
    let mut stop: Option<usize> = None;
    let mut i: usize = 0;
    while i < lines.len()
        invariant
            i <= lines@.len(),
            ls == lines.deep_view(),
            start matches Some(a) ==> a < i,
            stop matches Some(b) ==> b < i,
            (match start {
                Some(a) => Some(a as nat),
                None => None,
            }, match stop {
                Some(b) => Some(b as nat),
                None => None,
            }) == deps_section(ls.subrange(0, i as int)),
        decreases lines@.len() - i,
    {
        proof {
            assert(ls.subrange(0, i + 1).drop_last() =~= ls.subrange(0, i as int));
            assert(ls.subrange(0, i + 1).last() == lines@[i as int]@);
        }
        if stop.is_none() {
            let line = lines[i].as_str();
            if starts_with(line, "dependencies:") {
                start = Some(i);
            } else if start.is_some() && line.unicode_len() > 0 {
                let c = line.get_char(0);
                if c != ' ' && c != '\t' && c != '-' {
                    stop = Some(i);
                }
            }
        }
        i += 1;
    }
    proof {
        assert(ls.subrange(0, lines@.len() as int) =~= ls);
    }
    let a = match start {
        Some(a) => a,
        None => {
            return Err(to_owned_string("No dependencies section found in manifest"));
        },
    };
    let b = match stop {
        Some(b) => b,
        None => lines.len(),
    };
    let mut out: Vec<String> = Vec::new();
    let mut k: usize = 0;
    while k < a
        invariant
            k <= a,
            a < lines@.len(),
            ls == lines.deep_view(),
            out.deep_view() == ls.subrange(0, k as int),
        decreases a - k,
    {
        let ghost before = out.deep_view();
        out.push(to_owned_string(lines[k].as_str()));
        proof {
            assert(out.deep_view() =~= before.push(ls[k as int]));
            assert(ls.subrange(0, k + 1) =~= ls.subrange(0, k as int).push(ls[k as int]));
        }
        k += 1;
    }
    let ghost head = out.deep_view();
    let ghost sec = deps_section_lines(deps@);
    let ghost before_sec = out.deep_view();
    out.push(to_owned_string("dependencies:"));
    proof {
        assert(out.deep_view() =~= before_sec + deps_section_lines(deps@.subrange(0, 0)));
    }
    let mut j: usize = 0;
    while j < deps.len()
        invariant
            j <= deps@.len(),
            head == ls.subrange(0, a as int),
            out.deep_view() == head + deps_section_lines(deps@.subrange(0, j as int)),
        decreases deps@.len() - j,
    {
        let ghost before = out.deep_view();
        proof {
            assert(deps@.subrange(0, j + 1).drop_last() =~= deps@.subrange(0, j as int));
            assert(deps@.subrange(0, j + 1).last() == deps@[j as int]);
        }
        match &deps[j].name {
            Some(n) => {
                let mut l1 = to_owned_string("  - name: ");
                push_str(&mut l1, n.as_str());
                let mut l2 = to_owned_string("    commit: ");
                push_str(&mut l2, deps[j].commit.as_str());
                out.push(l1);
                out.push(l2);
                proof {
                    assert(out.deep_view() =~= before + seq![
                        "  - name: "@ + n@,
                        "    commit: "@ + deps@[j as int].commit@,
                    ]);
                }
            },
            None => {
                let mut l1 = to_owned_string("  - commit: ");
                push_str(&mut l1, deps[j].commit.as_str());
                out.push(l1);
                proof {
                    assert(out.deep_view() =~= before + seq!["  - commit: "@ + deps@[j as int].commit@]);
                }
            },
        }
        j += 1;
    }
    proof {
        assert(deps@.subrange(0, deps@.len() as int) =~= deps@);
    }
    let ghost mid = out.deep_view();
    let mut m: usize = b;
    while m < lines.len()
        invariant
            b <= m <= lines@.len(),
            ls == lines.deep_view(),
            out.deep_view() == mid + ls.subrange(b as int, m as int),
        decreases lines@.len() - m,
    {
        let ghost before = out.deep_view();
        out.push(to_owned_string(lines[m].as_str()));
        proof {
            assert(out.deep_view() =~= before.push(ls[m as int]));
            assert(ls.subrange(b as int, m + 1) =~= ls.subrange(b as int, m as int).push(ls[m as int]));
        }
        m += 1;
    }
    let ghost all = out.deep_view();
    let mut text = join_range(&out, 0, out.len(), "\n");
    proof {
        assert(all.subrange(0, all.len() as int) =~= all);
        assert(all =~= ls.subrange(0, a as int) + deps_section_lines(deps@) + ls.subrange(b as int, ls.len() as int));
    }
    if ends_with(contents, "\n") {
        push_str(&mut text, "\n");
    } else {
        proof {
            assert(text@ =~= join_seq(all, "\n"@) + Seq::<char>::empty());
        }
    }
    Ok(text)
}

} // verus!
