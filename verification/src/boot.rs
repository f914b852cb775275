//! Boot-time decisions of the UEFI bootloader: which zub deployment boots,
//! the kernel command line, the extra modules it loads, and how typed keys
//! make up a passphrase.
use vstd::prelude::*;
use vstd::string::StringSliceAdditionalSpecFns;
use vstd::utf8::encode_utf8;
use crate::text::to_owned_string;
use crate::text::push_str;
use crate::text::push_char;
use crate::text::trim;
use crate::text::trim_seq;
use crate::text::lines;
use crate::text::lines_seq;
use crate::text::rfind_char;
use crate::text::is_prefix;
use crate::text::starts_with;
use crate::text::substring;

verus! {

/// represents a discovered zub deployment
pub struct Deployment {
    /// commit checksum (64 hex chars)
    pub checksum: String,
    /// deployment serial (for rollback ordering)
    pub serial: u32,
    /// full path to deployment root
    pub path: String,
}

/// A directory entry of the root file system.
pub struct DirEntry {
    pub name: String,
    pub is_dir: bool,
}

/// A loaded kernel image.
pub struct KernelData {
    /// raw kernel EFI stub image
    pub kernel: Vec<u8>,
}

/// An ASCII hexadecimal digit.
pub open spec fn is_hex(c: char) -> bool {
    ('0' <= c && c <= '9') || ('a' <= c && c <= 'f') || ('A' <= c && c <= 'F')
}

/// The value of decimal digits, if they are all digits and fit in a `u32`
/// (as `str::parse::<u32>` reads them, with an optional leading '+').
pub open spec fn decimal_value(s: Seq<char>) -> Option<u32> {
    let d = unsigned_digits(s);
    if d.len() == 0 || !all_digits(d) {
        None
    } else if digits_value(d) > u32::MAX {
        None
    } else {
        Some(digits_value(d) as u32)
    }
}

/// The digits of a number, after an optional '+'.
pub open spec fn unsigned_digits(s: Seq<char>) -> Seq<char> {
    if s.len() > 0 && s[0] == '+' {
        s.drop_first()
    } else {
        s
    }
}

/// Only decimal digits.
pub open spec fn all_digits(d: Seq<char>) -> bool {
    forall|i: int| 0 <= i < d.len() ==> '0' <= #[trigger] d[i] && d[i] <= '9'
}

/// The number that decimal digits spell.
pub open spec fn digits_value(d: Seq<char>) -> nat
    decreases d.len(),
{
    if d.len() == 0 {
        0
    } else {
        digits_value(d.drop_last()) * 10 + ((d.last() as int) - 48) as nat
    }
}

/// Parses a decimal `u32`.
pub fn parse_u32(s: &str) -> (r: Option<u32>)
    ensures
        r == decimal_value(s@),
{
    let n = s.unicode_len();
    let start: usize = if n > 0 && s.get_char(0) == '+' { 1 } else { 0 };
    let ghost d = unsigned_digits(s@);
    proof {
        assert(d =~= s@.subrange(start as int, n as int));
    }
    if start == n {
        return None;
    }
    let mut acc: u64 = 0;
    let mut i: usize = start;
    while i < n
        invariant
            n == s@.len(),
            start <= i <= n,
            d == s@.subrange(start as int, n as int),
            d == unsigned_digits(s@),
            forall|j: int| start <= j < i ==> '0' <= #[trigger] s@[j] && s@[j] <= '9',
            acc == digits_value(s@.subrange(start as int, i as int)),
            acc <= u32::MAX,
        decreases n - i,
    {
        let c = s.get_char(i);
        if !('0' <= c && c <= '9') {
            proof {
                assert(d[i - start] == c);
                assert(!('0' <= d[i - start] && d[i - start] <= '9'));
                assert(!all_digits(d));
            }
            return None;
        }
        proof {
            assert(s@.subrange(start as int, i + 1).drop_last() =~= s@.subrange(start as int, i as int));
        }
        acc = acc * 10 + (c as u64 - 48);
        i += 1;
        if acc > 0xFFFF_FFFF {
            proof {
                if all_digits(d) {
                    lemma_digits_grow(d, (i - start) as nat);
                    assert(d.subrange(0, (i - start) as int) =~= s@.subrange(start as int, i as int));
                }
            }
            return None;
        }
    }
    proof {
        assert(s@.subrange(start as int, n as int) =~= d);
        assert forall|j: int| 0 <= j < d.len() implies '0' <= #[trigger] d[j] && d[j] <= '9' by {
            assert(d[j] == s@[start + j]);
        }
    }
    Some(acc as u32)
}

/// Digits after a prefix only add to its value.
proof fn lemma_digits_grow(d: Seq<char>, k: nat)
    requires
        k <= d.len(),
        forall|j: int| 0 <= j < d.len() ==> '0' <= #[trigger] d[j] && d[j] <= '9',
    ensures
        digits_value(d) >= digits_value(d.subrange(0, k as int)),
    decreases d.len() - k,
{
    if k < d.len() {
        lemma_digits_grow(d, k + 1);
        assert(d.subrange(0, (k + 1) as int).drop_last() =~= d.subrange(0, k as int));
    } else {
        assert(d.subrange(0, k as int) =~= d);
    }
}

/// A deployment directory name `<checksum>.<serial>`: 64 hex digits, a dot
/// (the last one) and a decimal serial.
pub open spec fn deployment_name_parts(name: Seq<char>) -> Option<(Seq<char>, u32)> {
    if !(exists|i: int| 0 <= i < name.len() && name[i] == '.') {
        None
    } else {
        let dot = choose|i: int|
            0 <= i < name.len() && name[i] == '.' && forall|j: int| i < j < name.len() ==> name[j] != '.';
        let checksum = name.subrange(0, dot);
        if checksum.len() != 64 || exists|i: int| 0 <= i < 64 && !is_hex(#[trigger] checksum[i]) {
            None
        } else {
            match decimal_value(name.subrange(dot + 1, name.len() as int)) {
                Some(serial) => Some((checksum, serial)),
                None => None,
            }
        }
    }
}

/// parse a deployment directory name into a Deployment struct
/// format: <checksum>.<serial> where checksum is 64 hex chars
pub fn parse_deployment_name(name: &str) -> (r: Option<Deployment>)
    ensures
        match deployment_name_parts(name@) {
            Some((checksum, serial)) => r matches Some(d) && d.checksum@ == checksum && d.serial
                == serial && d.path@ == "/nex/deployments/"@ + name@,
            None => r is None,
        },
{
    let n = name.unicode_len();
    let dot = match rfind_char(name, '.') {
        Some(d) => d,
        None => return None,
    };
    proof {
        assert(exists|i: int| 0 <= i < name@.len() && name@[i] == '.' && forall|j: int| i < j < name@.len() ==> name@[j] != '.') by {
            assert(name@[dot as int] == '.');
        }
        let c = choose|i: int|
            0 <= i < name@.len() && name@[i] == '.' && forall|j: int| i < j < name@.len() ==> name@[j] != '.';
        if c < dot {
            assert(name@[dot as int] != '.');
        }
        if c > dot {
            assert(name@[c] != '.');
        }
    }
    let checksum = substring(name, 0, dot);
    if checksum.as_str().unicode_len() != 64 {
        return None;
    }
    let mut i: usize = 0;
    while i < 64
        invariant
            checksum@.len() == 64,
            checksum@ == name@.subrange(0, dot as int),
            dot < name@.len(),
            dot as int == choose|i: int|
                0 <= i < name@.len() && name@[i] == '.' && forall|j: int| i < j < name@.len() ==> name@[j] != '.',
            exists|i: int| 0 <= i < name@.len() && name@[i] == '.',
            i <= 64,
            forall|j: int| 0 <= j < i ==> is_hex(#[trigger] checksum@[j]),
        decreases 64 - i,
    {
        let c = checksum.as_str().get_char(i);
        if !(('0' <= c && c <= '9') || ('a' <= c && c <= 'f') || ('A' <= c && c <= 'F')) {
            proof {
                assert(!is_hex(checksum@[i as int]));
            }
            return None;
        }
        i += 1;
    }
    let serial_str = substring(name, dot + 1, n);
    let serial = match parse_u32(serial_str.as_str()) {
        Some(v) => v,
        None => return None,
    };
    let mut path = to_owned_string("/nex/deployments/");
    push_str(&mut path, name);
    Some(Deployment { checksum, serial, path })
}

/// The serial of a valid deployment name.
pub open spec fn serial_of(name: Seq<char>) -> u32 {
    match deployment_name_parts(name) {
        Some((_, serial)) => serial,
        None => 0,
    }
}

/// The deployment that boots: the valid deployment directory with the
/// highest serial; among equal serials, the first one listed.
pub open spec fn is_default_deployment(entries: Seq<DirEntry>, i: int) -> bool {
    &&& 0 <= i < entries.len()
    &&& entries[i].is_dir
    &&& deployment_name_parts(entries[i].name@) is Some
    &&& forall|j: int| 0 <= j < entries.len() && entries[j].is_dir && deployment_name_parts(#[trigger] entries[j].name@) is Some
        ==> serial_of(entries[j].name@) <= serial_of(entries[i].name@)
    &&& forall|j: int| 0 <= j < i && entries[j].is_dir && deployment_name_parts(#[trigger] entries[j].name@) is Some
        ==> serial_of(entries[j].name@) < serial_of(entries[i].name@)
}

/// Chooses the deployment to boot from the entries of the deployments
/// directory; none when no entry is a valid deployment.
pub fn select_default_deployment(entries: &Vec<DirEntry>) -> (r: Option<Deployment>)
    ensures
        match r {
            Some(d) => exists|i: int|
                is_default_deployment(entries@, i) && deployment_name_parts(entries@[i].name@)
                    == Some((d.checksum@, d.serial)) && d.path@ == "/nex/deployments/"@ + entries@[i].name@,
            None => forall|j: int|
                0 <= j < entries@.len() && entries@[j].is_dir ==> deployment_name_parts(#[trigger] entries@[j].name@) is None,
        },
{
    let mut best: Option<Deployment> = None;
    let ghost mut best_i: int = -1;
    let mut k: usize = 0;
    while k < entries.len()
        invariant
            k <= entries@.len(),
            best is None ==> forall|j: int| 0 <= j < k && entries@[j].is_dir ==> deployment_name_parts(#[trigger] entries@[j].name@) is None,
            best matches Some(d) ==> {
                &&& 0 <= best_i < k
                &&& entries@[best_i].is_dir
                &&& deployment_name_parts(entries@[best_i].name@) == Some((d.checksum@, d.serial))
                &&& d.path@ == "/nex/deployments/"@ + entries@[best_i].name@
                &&& forall|j: int| 0 <= j < k && entries@[j].is_dir && deployment_name_parts(#[trigger] entries@[j].name@) is Some
                    ==> serial_of(entries@[j].name@) <= d.serial
                &&& forall|j: int| 0 <= j < best_i && entries@[j].is_dir && deployment_name_parts(#[trigger] entries@[j].name@) is Some
                    ==> serial_of(entries@[j].name@) < d.serial
            },
        decreases entries@.len() - k,
    {
        let entry = &entries[k];
        if entry.is_dir {
            match parse_deployment_name(entry.name.as_str()) {
                Some(d) => {
                    let better = match &best {
                        Some(b) => d.serial > b.serial,
                        None => true,
                    };
                    if better {
                        best = Some(d);
                        proof {
                            best_i = k as int;
                        }
                    }
                },
                None => {},
            }
        }
        k += 1;
    }
    proof {
        if best is Some {
            assert(is_default_deployment(entries@, best_i));
        }
    }
    best
}

/// The kernel command line: the root partition and deployment, read-only,
/// then the extra arguments when they are not blank.
pub open spec fn cmdline_of(partuuid: Seq<char>, deployment_path: Seq<char>, extra: Option<Seq<char>>) -> Seq<char> {
    let base = "root=PARTUUID="@ + partuuid + " zub="@ + deployment_path + " ro"@;
    match extra {
        Some(e) => if trim_seq(e).len() > 0 {
            base + " "@ + trim_seq(e)
        } else {
            base
        },
        None => base,
    }
}

/// Builds the kernel command line.
pub fn build_cmdline(partuuid: &str, deployment_path: &str, extra: Option<&str>) -> (r: String)
    ensures
        r@ == cmdline_of(partuuid@, deployment_path@, match extra { Some(e) => Some(e@), None => None }),
{
    let mut cmdline = to_owned_string("root=PARTUUID=");
    push_str(&mut cmdline, partuuid);
    push_str(&mut cmdline, " zub=");
    push_str(&mut cmdline, deployment_path);
    push_str(&mut cmdline, " ro");
    match extra {
        Some(e) => {
            let t = trim(e);
            if t.as_str().unicode_len() > 0 {
                push_char(&mut cmdline, ' ');
                push_str(&mut cmdline, t.as_str());
                proof {
                    reveal_strlit(" ");
                    assert(cmdline@ =~= cmdline_of(partuuid@, deployment_path@, Some(e@)));
                }
            }
        },
        None => {},
    }
    cmdline
}

/// The meaningful lines of a configuration text: trimmed, neither empty
/// nor comments.
pub open spec fn config_lines(ls: Seq<Seq<char>>) -> Seq<Seq<char>>
    decreases ls.len(),
{
    if ls.len() == 0 {
        Seq::empty()
    } else {
        let prev = config_lines(ls.drop_last());
        let t = trim_seq(ls.last());
        if t.len() == 0 || t[0] == '#' {
            prev
        } else {
            prev.push(t)
        }
    }
}

/// The meaningful lines of a configuration text.
pub fn config_entries(contents: &str) -> (r: Vec<String>)
    ensures
        r.deep_view() == config_lines(lines_seq(contents@)),
{
    let ls = lines(contents);
    let ghost lv = ls.deep_view();
    let mut out: Vec<String> = Vec::new();
    let mut i: usize = 0;
    while i < ls.len()
        invariant
            lv == ls.deep_view(),
            i <= ls@.len(),
            out.deep_view() == config_lines(lv.subrange(0, i as int)),
        decreases ls@.len() - i,
    {
        proof {
            assert(lv.subrange(0, i + 1).drop_last() =~= lv.subrange(0, i as int));
            assert(lv[i as int] == ls@[i as int]@);
        }
        let t = trim(ls[i].as_str());
        if t.as_str().unicode_len() > 0 && t.as_str().get_char(0) != '#' {
            let ghost before = out.deep_view();
            out.push(t);
            proof {
                assert(out.deep_view() =~= before.push(trim_seq(lv[i as int])));
            }
        }
        i += 1;
    }
    proof {
        assert(lv.subrange(0, lv.len() as int) =~= lv);
    }
    out
}

/// The kernel arguments of a `kcmdline.txt`: its meaningful lines joined by
/// spaces, or nothing when there are none.
pub open spec fn joined(ls: Seq<Seq<char>>) -> Seq<char>
    decreases ls.len(),
{
    if ls.len() == 0 {
        Seq::empty()
    } else if ls.len() == 1 {
        ls[0]
    } else {
        joined(ls.drop_last()) + " "@ + ls.last()
    }
}

/// Normalizes a `kcmdline.txt`.
pub fn normalize_kcmdline(contents: &str) -> (r: Option<String>)
    ensures
        config_lines(lines_seq(contents@)).len() == 0 ==> r is None,
        config_lines(lines_seq(contents@)).len() > 0 ==> (r matches Some(s) && s@ == joined(config_lines(lines_seq(contents@)))),
{
    let entries = config_entries(contents);
    let ghost ev = entries.deep_view();
    if entries.len() == 0 {
        return None;
    }
    let mut out = to_owned_string(entries[0].as_str());
    let mut i: usize = 1;
    proof {
        assert(ev.subrange(0, 1) =~= seq![ev[0]]);
    }
    while i < entries.len()
        invariant
            ev == entries.deep_view(),
            1 <= i <= ev.len(),
            out@ == joined(ev.subrange(0, i as int)),
        decreases ev.len() - i,
    {
        proof {
            assert(ev.subrange(0, i + 1).drop_last() =~= ev.subrange(0, i as int));
            reveal_strlit(" ");
        }
        push_char(&mut out, ' ');
        push_str(&mut out, entries[i].as_str());
        proof {
            assert(out@ =~= joined(ev.subrange(0, i + 1)));
        }
        i += 1;
    }
    proof {
        assert(ev.subrange(0, ev.len() as int) =~= ev);
    }
    Some(out)
}

/// Where a boot module of a deployment lies: below the deployment root.
pub open spec fn module_of(deployment_path: Seq<char>, module: Seq<char>) -> Seq<char> {
    if module.len() > 0 && module[0] == '/' {
        deployment_path + module
    } else {
        deployment_path + "/"@ + module
    }
}

/// The path of a boot module in the deployment.
pub fn module_full_path(deployment_path: &str, module: &str) -> (r: String)
    ensures
        r@ == module_of(deployment_path@, module@),
{
    let mut p = to_owned_string(deployment_path);
    if !(module.unicode_len() > 0 && module.get_char(0) == '/') {
        push_char(&mut p, '/');
        proof {
            reveal_strlit("/");
        }
    }
    push_str(&mut p, module);
    proof {
        reveal_strlit("/");
        assert(p@ =~= module_of(deployment_path@, module@));
    }
    p
}

/// The name a boot module gets in the initramfs: what follows its last '/'.
pub fn module_file_name(module: &str) -> (r: String)
    ensures
        forall|j: int| 0 <= j < r@.len() ==> r@[j] != '/',
        crate::text::is_suffix(r@, module@),
        r@.len() < module@.len() ==> module@[module@.len() - r@.len() - 1] == '/',
{
    let n = module.unicode_len();
    match rfind_char(module, '/') {
        Some(i) => {
            let r = substring(module, i + 1, n);
            proof {
                assert(module@.subrange(n - r@.len(), n as int) =~= r@);
            }
            r
        },
        None => {
            proof {
                assert(module@.subrange(0, n as int) =~= module@);
                assert forall|j: int| 0 <= j < n implies module@[j] != '/' by {
                    if module@[j] == '/' {
                        assert(crate::text::has_char(module@, '/'));
                    }
                }
            }
            to_owned_string(module)
        },
    }
}

/// The most bytes a passphrase keeps.
pub const MAX_PASSPHRASE_LEN: usize = 512;

/// Why a passphrase could not be read.
pub enum PassphraseError {
    ConsoleError,
    Cancelled,
}

/// input event from keyboard
pub enum InputEvent {
    Char(char),
    Backspace,
    Enter,
    Escape,
    /// no key was pressed
    Idle,
}

/// The event of a printable key.
pub fn printable_event(character: char) -> (r: InputEvent)
    ensures
        (character == '\r' || character == '\n') ==> r is Enter,
        (character == '\x08' || character == '\x7f') ==> r is Backspace,
        !(character == '\r' || character == '\n' || character == '\x08' || character == '\x7f')
            ==> r == InputEvent::Char(character),
{
    if character == '\r' || character == '\n' {
        InputEvent::Enter
    } else if character == '\x08' || character == '\x7f' {
        InputEvent::Backspace
    } else {
        InputEvent::Char(character)
    }
}

/// Appends the UTF-8 bytes of a character, unless the passphrase is full.
pub fn append_character(passphrase: &mut Vec<u8>, character: char)
    ensures
        old(passphrase)@.len() >= MAX_PASSPHRASE_LEN ==> final(passphrase)@ == old(passphrase)@,
        old(passphrase)@.len() < MAX_PASSPHRASE_LEN ==> final(passphrase)@ == old(passphrase)@
            + encode_utf8(seq![character]),
{
    if passphrase.len() >= MAX_PASSPHRASE_LEN {
        return;
    }
    let mut s = String::new();
    push_char(&mut s, character);
    let bytes = s.as_str().as_bytes();
    let ghost start = passphrase@;
    let mut i: usize = 0;
    while i < bytes.len()
        invariant
            i <= bytes@.len(),
            passphrase@ == start + bytes@.subrange(0, i as int),
        decreases bytes@.len() - i,
    {
        passphrase.push(bytes[i]);
        i += 1;
        assert(passphrase@ =~= start + bytes@.subrange(0, i as int));
    }
    proof {
        assert(bytes@.subrange(0, bytes@.len() as int) =~= bytes@);
        assert(s@ =~= seq![character]);
    }
}

/// What reading a passphrase does next.
pub enum PassphraseStep {
    /// Keep reading keys.
    Continue,
    /// Wait a moment, then read again.
    Wait,
    /// The passphrase is complete.
    Done,
    /// The user cancelled.
    Cancelled,
}

/// Applies one input event to the passphrase typed so far.
pub fn passphrase_step(passphrase: &mut Vec<u8>, event: InputEvent) -> (r: PassphraseStep)
    ensures
        match event {
            InputEvent::Enter => r is Done && final(passphrase)@ == old(passphrase)@,
            InputEvent::Escape => r is Cancelled && final(passphrase)@ == old(passphrase)@,
            InputEvent::Backspace => r is Continue && final(passphrase)@ == (if old(passphrase)@.len() > 0 {
                old(passphrase)@.drop_last()
            } else {
                old(passphrase)@
            }),
            InputEvent::Char(c) => r is Continue && (old(passphrase)@.len() >= MAX_PASSPHRASE_LEN ==> final(passphrase)@ == old(passphrase)@)
                && (old(passphrase)@.len() < MAX_PASSPHRASE_LEN ==> final(passphrase)@ == old(passphrase)@ + encode_utf8(seq![c])),
            InputEvent::Idle => r is Wait && final(passphrase)@ == old(passphrase)@,
        },
{
    match event {
        InputEvent::Enter => PassphraseStep::Done,
        InputEvent::Escape => PassphraseStep::Cancelled,
        InputEvent::Backspace => {
            passphrase.pop();
            PassphraseStep::Continue
        },
        InputEvent::Char(character) => {
            append_character(passphrase, character);
            PassphraseStep::Continue
        },
        InputEvent::Idle => PassphraseStep::Wait,
    }
}

} // verus!
