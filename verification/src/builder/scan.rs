//! What the runtime scanner records for one file: the libraries and
//! interpreter of an ELF image, and the interpreter of a script.
//!
//! The file's bytes (or first line) are read by the caller; the decisions
//! on them are made here.
use vstd::prelude::*;
use crate::builder::runtime::RuntimeScanResult;
use crate::builder::runtime::ProviderIndex;
use crate::builder::runtime::ProviderMatch;
use crate::builder::runtime::resolution;
use crate::builder::runtime::resolve_requirement;
use crate::builder::runtime::matches_view;
use crate::builder::runtime::table_added;
use crate::builder::runtime::phase_of;
use crate::builder::runtime::phase_priority;
use crate::builder::runtime::file_name;
use crate::builder::runtime::file_name_of;
use crate::sorted::str_set;
use crate::sorted::strs_sorted;
use crate::sorted::str_slot;
use crate::sorted::set_insert;
use crate::builder::runtime::RuntimeScanner;
use crate::builder::runtime::any_phase3;
use crate::builder::runtime::depends_on_phase3;
use crate::builder::utils::category_of;
use crate::builder::utils::determine_category;
use crate::text::to_owned_string;
use crate::text::push_str;
use crate::text::trim;
use crate::text::trim_seq;
use crate::text::is_ws;
use crate::text::char_is_ws;
use crate::text::lossy_text;
use crate::text::from_utf8_lossy;

verus! {

/// The scan tables: resolved and unresolved requirements per category.
pub type Tables = (Map<Seq<char>, Map<Seq<char>, Set<Seq<char>>>>, Map<Seq<char>, Map<Seq<char>, Set<Seq<char>>>>);

/// The tables of a result.
pub open spec fn tables(r: RuntimeScanResult) -> Tables {
    (r.resolved_view(), r.unresolved_view())
}

/// Each provider's commit recorded as needed by category `c` for `reason`;
/// in phase 3, providers from earlier phases are skipped when `skip_early`.
pub open spec fn add_providers(
    t: Map<Seq<char>, Map<Seq<char>, Set<Seq<char>>>>,
    c: Seq<char>,
    m: Seq<(Seq<char>, Seq<char>)>,
    reason: Seq<char>,
    skip_early: bool,
) -> Map<Seq<char>, Map<Seq<char>, Set<Seq<char>>>>
    decreases m.len(),
{
    if m.len() == 0 {
        t
    } else {
        let prev = add_providers(t, c, m.drop_last(), reason, skip_early);
        if skip_early && phase_of(m.last().0) < 3 {
            prev
        } else {
            table_added(prev, c, m.last().0, reason)
        }
    }
}

/// Resolving requirement `req` of category `c`: its providers are
/// recorded, or the requirement is unresolved when there are none.
pub open spec fn require(
    s: Tables,
    providers: ProviderIndex,
    c: Seq<char>,
    req: Seq<char>,
    reason: Seq<char>,
    skip_early: bool,
) -> Tables {
    let m = resolution(providers, req);
    if m.len() == 0 {
        (s.0, table_added(s.1, c, req, reason))
    } else {
        (add_providers(s.0, c, m, reason, skip_early), s.1)
    }
}

/// Resolving each needed library that is not empty and not one of the
/// package's own files.
pub open spec fn needed_effect(
    s: Tables,
    needed: Seq<Seq<char>>,
    local: Set<Seq<char>>,
    display: Seq<char>,
    providers: ProviderIndex,
    c: Seq<char>,
) -> Tables
    decreases needed.len(),
{
    if needed.len() == 0 {
        s
    } else {
        let prev = needed_effect(s, needed.drop_last(), local, display, providers, c);
        let n = needed.last();
        if n.len() == 0 || local.contains(n) {
            prev
        } else {
            require(prev, providers, c, n, display + " needs "@ + n, false)
        }
    }
}

/// Records the providers of one requirement.
fn record_requirement(
    result: &mut RuntimeScanResult,
    providers: &ProviderIndex,
    category: &str,
    req: &str,
    reason: &str,
    skip_early: bool,
)
    requires
        old(result).wf(),
        providers.wf(),
    ensures
        final(result).wf(),
        final(result).phase3() == old(result).phase3(),
        tables(*final(result)) == require(tables(*old(result)), *providers, category@, req@, reason@, skip_early),
{
    let matches = resolve_requirement(providers, req);
    let ghost m = matches_view(matches@);
    if matches.len() == 0 {
        result.add_unresolved(category, to_owned_string(req), to_owned_string(reason));
        return;
    }
    let ghost start = result.resolved_view();
    let mut i: usize = 0;
    while i < matches.len()
        invariant
            result.wf(),
            result.phase3() == old(result).phase3(),
            result.unresolved_view() == old(result).unresolved_view(),
            start == old(result).resolved_view(),
            m == matches_view(matches@),
            i <= matches@.len(),
            result.resolved_view() == add_providers(start, category@, m.subrange(0, i as int), reason@, skip_early),
        decreases matches@.len() - i,
    {
        proof {
            assert(m.subrange(0, i + 1).drop_last() =~= m.subrange(0, i as int));
            assert(m[i as int].0 == matches@[i as int].commit@);
        }
        let candidate: &ProviderMatch = &matches[i];
        if !(skip_early && phase_priority(candidate.commit.as_str()) < 3) {
            result.add_resolved(category, candidate.commit.as_str(), to_owned_string(reason));
        }
        i += 1;
    }
    proof {
        assert(m.subrange(0, matches@.len() as int) =~= m);
    }
}

/// The libraries an ELF image needs and the interpreter it names.
pub struct ElfMetadata {
    pub needed: Vec<String>,
    pub interpreter: Option<String>,
}

/// The text of each string.
pub open spec fn texts(v: Seq<String>) -> Seq<Seq<char>> {
    v.map_values(|s: String| s@)
}

/// The text of an optional string.
pub open spec fn opt_text(o: Option<String>) -> Option<Seq<char>> {
    match o {
        Some(s) => Some(s@),
        None => None,
    }
}

/// The libraries and interpreter that goblin reads from an ELF image, or
/// nothing when the bytes are not one.
pub uninterp spec fn elf_dependencies(data: Seq<u8>) -> Option<(Seq<Seq<char>>, Option<Seq<char>>)>;

/// `goblin::Object::parse` on bytes that start with the ELF magic: the
/// `DT_NEEDED` libraries and the `PT_INTERP` interpreter of the ELF object;
/// nothing when goblin refuses it.
#[verifier::external_body]
pub(crate) fn parse_elf(data: &[u8]) -> (r: Option<(Vec<String>, Option<String>)>)
    requires
        data@.len() >= 4,
        data@.subrange(0, 4) == elf_magic(),
    ensures
        match r {
            Some((libs, interp)) => elf_dependencies(data@) == Some((texts(libs@), opt_text(interp))),
            None => elf_dependencies(data@) is None,
        },
{
    match goblin::Object::parse(data) {
        Ok(goblin::Object::Elf(elf)) => Some((
            elf.libraries.iter().map(|l| l.to_string()).collect(),
            elf.interpreter.map(|i| i.to_string()),
        )),
        _ => None,
    }
}

/// The trimmed, non-empty texts of a list.
pub open spec fn trimmed_names(v: Seq<Seq<char>>) -> Seq<Seq<char>>
    decreases v.len(),
{
    if v.len() == 0 {
        Seq::empty()
    } else {
        let prev = trimmed_names(v.drop_last());
        let t = trim_seq(v.last());
        if t.len() == 0 {
            prev
        } else {
            prev.push(t)
        }
    }
}

/// The ELF magic "\x7FELF".
pub open spec fn elf_magic() -> Seq<u8> {
    seq![0x7fu8, 0x45u8, 0x4cu8, 0x46u8]
}

/// What an image holds for the scanner: for an ELF image, its trimmed
/// non-empty libraries and its trimmed interpreter when not empty.
pub open spec fn elf_metadata_of(data: Seq<u8>) -> Option<(Seq<Seq<char>>, Option<Seq<char>>)> {
    if data.len() < 4 || data.subrange(0, 4) != elf_magic() {
        None
    } else {
        match elf_dependencies(data) {
            Some((libs, interp)) => Some((
                trimmed_names(libs),
                match interp {
                    Some(i) => if trim_seq(i).len() == 0 {
                        None
                    } else {
                        Some(trim_seq(i))
                    },
                    None => None,
                },
            )),
            None => None,
        }
    }
}

/// The scanner's view of a file's bytes: its ELF metadata, if it is an
/// ELF image.
pub fn elf_metadata(data: &[u8]) -> (r: Option<ElfMetadata>)
    ensures
        match elf_metadata_of(data@) {
            Some((needed, interp)) => r matches Some(m) && texts(m.needed@) == needed && opt_text(
                m.interpreter,
            ) == interp,
            None => r is None,
        },
{
    if data.len() < 4 || !(data[0] == 0x7f && data[1] == 0x45 && data[2] == 0x4c && data[3] == 0x46) {
        proof {
            if data@.len() >= 4 && data@.subrange(0, 4) == elf_magic() {
                assert(data@.subrange(0, 4)[0] == data@[0]);
                assert(data@.subrange(0, 4)[1] == data@[1]);
                assert(data@.subrange(0, 4)[2] == data@[2]);
                assert(data@.subrange(0, 4)[3] == data@[3]);
            }
        }
        return None;
    }
    assert(data@.subrange(0, 4) =~= elf_magic());
    match parse_elf(data) {
        Some((libs, interp)) => {
            let mut needed: Vec<String> = Vec::new();
            let mut i: usize = 0;
            while i < libs.len()
                invariant
                    i <= libs@.len(),
                    texts(needed@) == trimmed_names(texts(libs@).subrange(0, i as int)),
                decreases libs@.len() - i,
            {
                proof {
                    assert(texts(libs@).subrange(0, i + 1).drop_last() =~= texts(libs@).subrange(0, i as int));
                }
                let t = trim(libs[i].as_str());
                let ghost before = needed@;
                if t.as_str().unicode_len() > 0 {
                    needed.push(t);
                    proof {
                        assert(texts(needed@) =~= texts(before).push(t@));
                    }
                }
                i += 1;
            }
            proof {
                assert(texts(libs@).subrange(0, libs@.len() as int) =~= texts(libs@));
            }
            let interpreter = match interp {
                Some(x) => {
                    let t = trim(x.as_str());
                    if t.as_str().unicode_len() == 0 {
                        None
                    } else {
                        Some(t)
                    }
                },
                None => None,
            };
            Some(ElfMetadata { needed, interpreter })
        },
        None => None,
    }
}

/// The effect of an ELF file's metadata: its libraries, then its
/// interpreter (which is not checked against the package's own files).
pub open spec fn elf_effect(
    s: Tables,
    needed: Seq<Seq<char>>,
    interp: Option<Seq<char>>,
    local: Set<Seq<char>>,
    display: Seq<char>,
    providers: ProviderIndex,
    c: Seq<char>,
) -> Tables {
    let s1 = needed_effect(s, needed, local, display, providers, c);
    match interp {
        Some(i) => if i.len() == 0 {
            s1
        } else {
            require(s1, providers, c, i, display + " uses interpreter "@ + i, false)
        },
        None => s1,
    }
}

/// Records what an ELF file of category `category` at `display_path` needs;
/// `local_basenames` are the file names of the package's own files, sorted.
pub fn record_elf_requirements(
    meta: &ElfMetadata,
    display_path: &str,
    local_basenames: &Vec<String>,
    providers: &ProviderIndex,
    result: &mut RuntimeScanResult,
    category: &str,
)
    requires
        old(result).wf(),
        providers.wf(),
        strs_sorted(local_basenames@),
    ensures
        final(result).wf(),
        final(result).phase3() == old(result).phase3(),
        tables(*final(result)) == elf_effect(
            tables(*old(result)),
            texts(meta.needed@),
            opt_text(meta.interpreter),
            str_set(local_basenames@),
            display_path@,
            *providers,
            category@,
        ),
{
    let ghost local = str_set(local_basenames@);
    let ghost start = tables(*result);
    let mut i: usize = 0;
    while i < meta.needed.len()
        invariant
            result.wf(),
            providers.wf(),
            strs_sorted(local_basenames@),
            local == str_set(local_basenames@),
            result.phase3() == old(result).phase3(),
            start == tables(*old(result)),
            i <= meta.needed@.len(),
            tables(*result) == needed_effect(start, texts(meta.needed@).subrange(0, i as int), local, display_path@, *providers, category@),
        decreases meta.needed@.len() - i,
    {
        proof {
            assert(texts(meta.needed@).subrange(0, i + 1).drop_last() =~= texts(meta.needed@).subrange(0, i as int));
            assert(texts(meta.needed@).subrange(0, i + 1).last() == meta.needed@[i as int]@);
        }
        let needed = meta.needed[i].as_str();
        let (_, is_local) = str_slot(local_basenames, needed);
        if needed.unicode_len() > 0 && !is_local {
            let mut reason = to_owned_string(display_path);
            push_str(&mut reason, " needs ");
            push_str(&mut reason, needed);
            record_requirement(result, providers, category, needed, reason.as_str(), false);
        }
        i += 1;
    }
    proof {
        assert(texts(meta.needed@).subrange(0, meta.needed@.len() as int) =~= texts(meta.needed@));
    }
    match &meta.interpreter {
        Some(interpreter) => {
            if interpreter.as_str().unicode_len() > 0 {
                let mut reason = to_owned_string(display_path);
                push_str(&mut reason, " uses interpreter ");
                push_str(&mut reason, interpreter.as_str());
                record_requirement(result, providers, category, interpreter.as_str(), reason.as_str(), false);
            }
        },
        None => {},
    }
}

/// The interpreter line of a script.
pub struct ShebangInfo {
    pub interpreter: String,
    pub args: Vec<String>,
}

/// Splitting into white-space separated words: the words finished so far
/// and the word being read.
pub open spec fn words_state(s: Seq<char>) -> (Seq<Seq<char>>, Seq<char>)
    decreases s.len(),
{
    if s.len() == 0 {
        (Seq::empty(), Seq::empty())
    } else {
        let (done, cur) = words_state(s.drop_last());
        let c = s.last();
        if is_ws(c) {
            if cur.len() > 0 {
                (done.push(cur), Seq::empty())
            } else {
                (done, cur)
            }
        } else {
            (done, cur.push(c))
        }
    }
}

/// The white-space separated words of `s`, as `split_whitespace` yields them.
pub open spec fn words(s: Seq<char>) -> Seq<Seq<char>> {
    let (done, cur) = words_state(s);
    if cur.len() > 0 {
        done.push(cur)
    } else {
        done
    }
}

/// The words of a string.
pub fn split_whitespace(s: &str) -> (r: Vec<String>)
    ensures
        texts(r@) == words(s@),
{
    let n = s.unicode_len();
    let mut done: Vec<String> = Vec::new();
    let mut cur = String::new();
    let mut i: usize = 0;
    proof {
        assert(s@.subrange(0, 0) =~= Seq::<char>::empty());
        assert(texts(done@) =~= Seq::<Seq<char>>::empty());
    }
    while i < n
        invariant
            n == s@.len(),
            i <= n,
            (texts(done@), cur@) == words_state(s@.subrange(0, i as int)),
        decreases n - i,
    {
        proof {
            assert(s@.subrange(0, i + 1).drop_last() =~= s@.subrange(0, i as int));
        }
        let c = s.get_char(i);
        if char_is_ws(c) {
            if cur.as_str().unicode_len() > 0 {
                let ghost before = done@;
                let w = cur;
                done.push(w);
                proof {
                    assert(texts(done@) =~= texts(before).push(w@));
                }
                cur = String::new();
            }
        } else {
            crate::text::push_char(&mut cur, c);
        }
        i += 1;
    }
    proof {
        assert(s@.subrange(0, n as int) =~= s@);
    }
    if cur.as_str().unicode_len() > 0 {
        let ghost before = done@;
        let w = cur;
        done.push(w);
        proof {
            assert(texts(done@) =~= texts(before).push(w@));
        }
    }
    done
}

/// The interpreter and arguments of a script's first line (with its line
/// end): it starts with "#!", and what follows, decoded and trimmed, has
/// words.
pub open spec fn shebang_of(line: Seq<u8>) -> Option<(Seq<char>, Seq<Seq<char>>)> {
    if line.len() < 2 || line[0] != 0x23 || line[1] != 0x21 {
        None
    } else {
        let t = trim_seq(lossy_text(line.subrange(2, line.len() as int)));
        let w = words(t);
        if t.len() == 0 || w.len() == 0 {
            None
        } else {
            Some((w[0], w.subrange(1, w.len() as int)))
        }
    }
}

/// Parses the first line of a file as an interpreter line.
pub fn parse_shebang_line(line: &[u8]) -> (r: Option<ShebangInfo>)
    ensures
        match shebang_of(line@) {
            Some((interp, args)) => r matches Some(info) && info.interpreter@ == interp && texts(
                info.args@,
            ) == args,
            None => r is None,
        },
{
    if line.len() < 2 || line[0] != 0x23 || line[1] != 0x21 {
        return None;
    }
    let mut rest: Vec<u8> = Vec::new();
    let mut i: usize = 2;
    while i < line.len()
        invariant
            2 <= i <= line@.len(),
            rest@ == line@.subrange(2, i as int),
        decreases line@.len() - i,
    {
        rest.push(line[i]);
        i += 1;
        assert(rest@ =~= line@.subrange(2, i as int));
    }
    let text = from_utf8_lossy(rest.as_slice());
    let trimmed = trim(text.as_str());
    if trimmed.as_str().unicode_len() == 0 {
        return None;
    }
    let mut parts = split_whitespace(trimmed.as_str());
    if parts.len() == 0 {
        return None;
    }
    let ghost all = texts(parts@);
    let interpreter = parts.remove(0);
    proof {
        assert(texts(parts@) =~= all.subrange(1, all.len() as int));
    }
    Some(ShebangInfo { interpreter, args: parts })
}

/// `s` without its leading slashes, as `trim_start_matches('/')`.
pub open spec fn strip_slashes(s: Seq<char>) -> Seq<char>
    decreases s.len(),
{
    if s.len() > 0 && s[0] == '/' {
        strip_slashes(s.drop_first())
    } else {
        s
    }
}

/// Drops the leading slashes of a string.
pub(crate) fn strip_leading_slashes(s: &str) -> (r: String)
    ensures
        r@ == strip_slashes(s@),
{
    let n = s.unicode_len();
    let mut i: usize = 0;
    proof {
        assert(s@.subrange(0, n as int) =~= s@);
    }
    while i < n && s.get_char(i) == '/'
        invariant
            n == s@.len(),
            i <= n,
            strip_slashes(s@.subrange(i as int, n as int)) == strip_slashes(s@),
        decreases n - i,
    {
        proof {
            assert(s@.subrange(i as int, n as int).drop_first() =~= s@.subrange(i + 1, n as int));
        }
        i += 1;
    }
    crate::text::substring(s, i, n)
}

/// The file name of `t` is one of the package's own files.
pub open spec fn is_local(t: Seq<char>, local: Set<Seq<char>>) -> bool {
    match file_name_of(t) {
        Some(b) => local.contains(b),
        None => false,
    }
}

/// What handling the script target `target` can do to the tables: nothing
/// when it is empty or one of the package's own files or (for an absolute
/// target) a file of the package's output, else resolve it (skipping
/// earlier bootstrap phases in a phase 3 package).
pub open spec fn shebang_step<E: Fn(&str) -> bool>(
    before: Tables,
    after: Tables,
    phase3: bool,
    target: Seq<char>,
    display: Seq<char>,
    out_exists: E,
    local: Set<Seq<char>>,
    providers: ProviderIndex,
    c: Seq<char>,
) -> bool {
    let t = trim_seq(target);
    let resolved = require(before, providers, c, t, display + " shebang references "@ + t, phase3);
    if t.len() == 0 || is_local(t, local) {
        after == before
    } else if t[0] != '/' {
        after == resolved
    } else {
        ||| (after == before && exists|s: &str| s@ == strip_slashes(t) && #[trigger] call_ensures(out_exists, (s,), true))
        ||| (after == resolved && exists|s: &str| s@ == strip_slashes(t) && #[trigger] call_ensures(out_exists, (s,), false))
    }
}

/// Records what a script's interpreter (or its target) needs, unless the
/// package provides it itself; `out_exists` tells whether a path relative
/// to the package's output exists.
pub fn handle_shebang_requirement<E: Fn(&str) -> bool>(
    target: &str,
    display_path: &str,
    out_exists: &E,
    local_basenames: &Vec<String>,
    providers: &ProviderIndex,
    result: &mut RuntimeScanResult,
    category: &str,
)
    requires
        forall|s: &str| call_requires(*out_exists, (s,)),
        old(result).wf(),
        providers.wf(),
        strs_sorted(local_basenames@),
    ensures
        final(result).wf(),
        final(result).phase3() == old(result).phase3(),
        shebang_step(
            tables(*old(result)),
            tables(*final(result)),
            old(result).phase3(),
            target@,
            display_path@,
            *out_exists,
            str_set(local_basenames@),
            *providers,
            category@,
        ),
{
    let trimmed = trim(target);
    let t = trimmed.as_str();
    if t.unicode_len() == 0 {
        return;
    }
    match file_name(t) {
        Some(basename) => {
            let (_, found) = str_slot(local_basenames, basename.as_str());
            if found {
                return;
            }
        },
        None => {},
    }
    if t.get_char(0) == '/' {
        let rel = strip_leading_slashes(t);
        if out_exists(rel.as_str()) {
            return;
        }
    }
    let mut reason = to_owned_string(display_path);
    push_str(&mut reason, " shebang references ");
    push_str(&mut reason, t);
    let skip_early = result.is_phase3();
    record_requirement(result, providers, category, t, reason.as_str(), skip_early);
}

/// What a script's interpreter line does to the tables: its interpreter,
/// then, when that is `env`, the program named by its first argument.
pub open spec fn shebang_effect<E: Fn(&str) -> bool>(
    before: Tables,
    after: Tables,
    phase3: bool,
    info: ShebangInfo,
    display: Seq<char>,
    out_exists: E,
    local: Set<Seq<char>>,
    providers: ProviderIndex,
    c: Seq<char>,
) -> bool {
    exists|mid: Tables|
        #![trigger shebang_step(before, mid, phase3, info.interpreter@, display, out_exists, local, providers, c)]
        shebang_step(before, mid, phase3, info.interpreter@, display, out_exists, local, providers, c)
            && (if file_name_of(info.interpreter@) == Some("env"@) && info.args@.len() > 0 {
            shebang_step(mid, after, phase3, info.args@[0]@, display, out_exists, local, providers, c)
        } else {
            after == mid
        })
}

/// Records what a script needs: its interpreter, and when that is `env`,
/// the program named by its first argument.
pub fn record_shebang_requirements<E: Fn(&str) -> bool>(
    info: &ShebangInfo,
    display_path: &str,
    out_exists: &E,
    local_basenames: &Vec<String>,
    providers: &ProviderIndex,
    result: &mut RuntimeScanResult,
    category: &str,
)
    requires
        forall|s: &str| call_requires(*out_exists, (s,)),
        old(result).wf(),
        providers.wf(),
        strs_sorted(local_basenames@),
    ensures
        final(result).wf(),
        final(result).phase3() == old(result).phase3(),
        shebang_effect(
            tables(*old(result)),
            tables(*final(result)),
            old(result).phase3(),
            *info,
            display_path@,
            *out_exists,
            str_set(local_basenames@),
            *providers,
            category@,
        ),
{
    handle_shebang_requirement(
        info.interpreter.as_str(),
        display_path,
        out_exists,
        local_basenames,
        providers,
        result,
        category,
    );
    let ghost mid = tables(*result);
    if crate::builder::runtime::interpreter_is_env(info.interpreter.as_str()) && info.args.len() > 0 {
        handle_shebang_requirement(
            info.args[0].as_str(),
            display_path,
            out_exists,
            local_basenames,
            providers,
            result,
            category,
        );
    }
}

/// One file of a package's output as the scanner sees it: its path
/// below the output directory (with a leading `/`), what its ELF image
/// needs, and its interpreter line.
pub struct ScannedFile {
    pub display_path: String,
    pub elf: Option<ElfMetadata>,
    pub shebang: Option<ShebangInfo>,
}

/// The file names of the package's own files, as a sorted set.
pub fn collect_basenames(names: &Vec<String>) -> (r: Vec<String>)
    ensures
        strs_sorted(r@),
        str_set(r@) == texts(names@).to_set(),
{
    let mut set: Vec<String> = Vec::new();
    let mut i: usize = 0;
    while i < names.len()
        invariant
            i <= names@.len(),
            strs_sorted(set@),
            str_set(set@) == texts(names@).subrange(0, i as int).to_set(),
        decreases names@.len() - i,
    {
        proof {
            assert(texts(names@).subrange(0, i + 1) =~= texts(names@).subrange(0, i as int).push(
                names@[i as int]@,
            ));
            texts(names@).subrange(0, i as int).lemma_push_to_set_commute(names@[i as int]@);
        }
        set_insert(&mut set, names[i].as_str());
        i += 1;
    }
    proof {
        assert(texts(names@).subrange(0, names@.len() as int) =~= texts(names@));
    }
    set
}

/// What scanning one file does to the tables: its ELF requirements, then
/// its interpreter line (and, for `env`, the program it starts).
pub open spec fn file_scan_step<E: Fn(&str) -> bool>(
    before: Tables,
    after: Tables,
    phase3: bool,
    f: ScannedFile,
    out_exists: E,
    local: Set<Seq<char>>,
    providers: ProviderIndex,
) -> bool {
    let d = f.display_path@;
    let c = category_of(d);
    let mid = match f.elf {
        Some(m) => elf_effect(before, texts(m.needed@), opt_text(m.interpreter), local, d, providers, c),
        None => before,
    };
    match f.shebang {
        None => after == mid,
        Some(info) => shebang_effect(mid, after, phase3, info, d, out_exists, local, providers, c),
    }
}

/// The tables of an empty result.
pub open spec fn no_tables() -> Tables {
    (Map::empty(), Map::empty())
}

/// `chain` runs from the empty tables through one step per file.
pub open spec fn scan_chain<E: Fn(&str) -> bool>(
    chain: Seq<Tables>,
    phase3: bool,
    files: Seq<ScannedFile>,
    out_exists: E,
    local: Set<Seq<char>>,
    providers: ProviderIndex,
) -> bool {
    &&& chain.len() == files.len() + 1
    &&& chain[0] == no_tables()
    &&& forall|i: int|
        0 <= i < files.len() ==> #[trigger] file_scan_step(
            chain[i],
            chain[i + 1],
            phase3,
            files[i],
            out_exists,
            local,
            providers,
        )
}

/// Records what one file of the package's output needs.
fn scan_file<E: Fn(&str) -> bool>(
    f: &ScannedFile,
    out_exists: &E,
    local_basenames: &Vec<String>,
    providers: &ProviderIndex,
    result: &mut RuntimeScanResult,
)
    requires
        forall|s: &str| call_requires(*out_exists, (s,)),
        old(result).wf(),
        providers.wf(),
        strs_sorted(local_basenames@),
    ensures
        final(result).wf(),
        final(result).phase3() == old(result).phase3(),
        file_scan_step(
            tables(*old(result)),
            tables(*final(result)),
            old(result).phase3(),
            *f,
            *out_exists,
            str_set(local_basenames@),
            *providers,
        ),
{
    let category = determine_category(f.display_path.as_str());
    match &f.elf {
        Some(meta) => record_elf_requirements(
            meta,
            f.display_path.as_str(),
            local_basenames,
            providers,
            result,
            category.as_str(),
        ),
        None => {},
    }
    match &f.shebang {
        Some(info) => record_shebang_requirements(
            info,
            f.display_path.as_str(),
            out_exists,
            local_basenames,
            providers,
            result,
            category.as_str(),
        ),
        None => {},
    }
}

impl<'a> RuntimeScanner<'a> {
    /// Scans the files of a package's output: nothing when the output
    /// directory does not exist, else each file in turn. `local_names` are
    /// the file names of the output's files, `providers` the index of what
    /// the dependencies provide, and `out_exists` tells whether a path
    /// relative to the output directory exists.
    pub fn scan<E: Fn(&str) -> bool>(
        &self,
        out_dir_exists: bool,
        files: &Vec<ScannedFile>,
        local_names: &Vec<String>,
        providers: &ProviderIndex,
        out_exists: &E,
    ) -> (r: RuntimeScanResult)
        requires
            forall|s: &str| call_requires(*out_exists, (s,)),
            providers.wf(),
        ensures
            r.wf(),
            !out_dir_exists ==> tables(r) == no_tables() && !r.phase3(),
            out_dir_exists ==> r.phase3() == any_phase3(self.dependency_commits@),
            out_dir_exists ==> exists|chain: Seq<Tables>|
                scan_chain(chain, r.phase3(), files@, *out_exists, texts(local_names@).to_set(), *providers)
                    && chain.last() == tables(r),
    {
        if !out_dir_exists {
            let r = RuntimeScanResult::default();
            proof {
                assert(tables(r) =~= no_tables());
            }
            return r;
        }
        let local = collect_basenames(local_names);
        let mut result = RuntimeScanResult::new(depends_on_phase3(self.dependency_commits));
        let ghost mut chain: Seq<Tables> = seq![tables(result)];
        proof {
            assert(tables(result) =~= no_tables());
        }
        let mut i: usize = 0;
        while i < files.len()
            invariant
                forall|s: &str| call_requires(*out_exists, (s,)),
                providers.wf(),
                strs_sorted(local@),
                str_set(local@) == texts(local_names@).to_set(),
                result.wf(),
                result.phase3() == any_phase3(self.dependency_commits@),
                i <= files@.len(),
                chain.len() == i + 1,
                chain[0] == no_tables(),
                chain.last() == tables(result),
                forall|k: int|
                    0 <= k < i ==> #[trigger] file_scan_step(
                        chain[k],
                        chain[k + 1],
                        result.phase3(),
                        files@[k],
                        *out_exists,
                        texts(local_names@).to_set(),
                        *providers,
                    ),
            decreases files@.len() - i,
        {
            scan_file(&files[i], out_exists, &local, providers, &mut result);
            proof {
                let prev = chain;
                chain = chain.push(tables(result));
                assert forall|k: int|
                    0 <= k < i + 1 implies #[trigger] file_scan_step(
                        chain[k],
                        chain[k + 1],
                        result.phase3(),
                        files@[k],
                        *out_exists,
                        texts(local_names@).to_set(),
                        *providers,
                    ) by {
                    if k < i {
                        assert(chain[k] == prev[k] && chain[k + 1] == prev[k + 1]);
                    }
                }
            }
            i += 1;
        }
        proof {
            assert(scan_chain(chain, result.phase3(), files@, *out_exists, texts(local_names@).to_set(), *providers));
        }
        result
    }
}

} // verus!
