//! The install screen: choosing a .deb file, reading its metadata,
//! installing it, and the outcome.
use vstd::prelude::*;

use crate::models::package::{opt_view, string_views, DebInfo, InstalledPackage};
use crate::text::{chars_of, lines, lines_of, string_of};
use crate::utils::deb_files::{extension_of, path_extension};

verus! {

/// Where the install screen stands.
pub enum InstallState {
    Idle,
    LoadingInfo(String),
    FileSelected { path: String, info: DebInfo },
    Installing { info: DebInfo },
    Done { message: String, success: bool },
}

// ---------------------------------------------------------------------------
// Specification
// ---------------------------------------------------------------------------

/// Two package descriptions hold the same values.
pub open spec fn same_info(a: DebInfo, b: DebInfo) -> bool {
    &&& a.name@ == b.name@
    &&& a.version@ == b.version@
    &&& a.architecture@ == b.architecture@
    &&& a.description@ == b.description@
    &&& a.installed_size_kb == b.installed_size_kb
    &&& string_views(a.depends@) == string_views(b.depends@)
    &&& a.maintainer@ == b.maintainer@
    &&& opt_view(a.section) == opt_view(b.section)
}

/// The first line of a text, empty when it has none.
pub open spec fn first_line(s: Seq<char>) -> Seq<char> {
    if lines(s).len() > 0 {
        lines(s)[0]
    } else {
        Seq::empty()
    }
}

/// The decimal digit `d` as a character.
pub open spec fn digit_char(d: nat) -> char {
    ((d + 48) as u8) as char
}

/// The decimal representation of `n`, as `u64`'s `Display` writes it.
pub open spec fn decimal(n: nat) -> Seq<char>
    decreases n,
{
    if n < 10 {
        seq![digit_char(n)]
    } else {
        decimal(n / 10).push(digit_char(n % 10))
    }
}

/// Items joined with `, `.
pub open spec fn join_comma(s: Seq<Seq<char>>) -> Seq<char>
    decreases s.len(),
{
    if s.len() == 0 {
        Seq::empty()
    } else if s.len() == 1 {
        s[0]
    } else {
        join_comma(s.drop_last()) + ", "@ + s.last()
    }
}

// ---------------------------------------------------------------------------
// Implementation
// ---------------------------------------------------------------------------

/// A copy of a package description.
pub fn copy_info(info: &DebInfo) -> (r: DebInfo)
    ensures
        same_info(r, *info),
{
    let mut depends: Vec<String> = Vec::new();
    let mut i: usize = 0;
    while i < info.depends.len()
        invariant
            i <= info.depends.len(),
            string_views(depends@) == string_views(info.depends@).take(i as int),
        decreases info.depends.len() - i,
    {
        let ghost prev = depends@;
        let d = info.depends[i].clone();
        assert(d@ == info.depends@[i as int]@);
        depends.push(d);
        assert(string_views(depends@) =~= string_views(prev).push(info.depends@[i as int]@));
        i = i + 1;
        assert(string_views(depends@) =~= string_views(info.depends@).take(i as int));
    }
    assert(string_views(info.depends@).take(info.depends.len() as int) =~= string_views(
        info.depends@,
    ));
    DebInfo {
        name: info.name.clone(),
        version: info.version.clone(),
        architecture: info.architecture.clone(),
        description: info.description.clone(),
        installed_size_kb: info.installed_size_kb,
        depends,
        maintainer: info.maintainer.clone(),
        section: match &info.section {
            Some(s) => Some(s.clone()),
            None => None,
        },
    }
}

/// The first line of a text, empty when it has none.
pub fn first_line_of(s: &str) -> (r: String)
    ensures
        r@ == first_line(s@),
{
    let cs = chars_of(s);
    let ls = lines_of(cs.as_slice());
    if ls.len() > 0 {
        string_of(ls[0].as_slice())
    } else {
        String::new()
    }
}

/// The record kept of a package installed from `path` at the given UTC
/// instant: its name, version, architecture and the first line of its
/// description.
pub fn installed_record(info: &DebInfo, path: &str, secs: i64, nanos: u32) -> (r:
    InstalledPackage)
    ensures
        r.name@ == info.name@,
        r.version@ == info.version@,
        r.architecture@ == info.architecture@,
        r.description@ == first_line(info.description@),
        r.install_date_secs == secs,
        r.install_date_nanos == nanos,
        opt_view(r.source_file) == Some(path@),
{
    InstalledPackage {
        name: info.name.clone(),
        version: info.version.clone(),
        architecture: info.architecture.clone(),
        description: first_line_of(info.description.as_str()),
        install_date_secs: secs,
        install_date_nanos: nanos,
        source_file: Some(String::from_str(path)),
    }
}

/// The decimal digits of `n`.
fn decimal_chars(n: u64) -> (r: Vec<char>)
    ensures
        r@ == decimal(n as nat),
    decreases n,
{
    let d = (n % 10) as u8;
    let c = (d + 48) as char;
    if n < 10 {
        let mut v: Vec<char> = Vec::new();
        v.push(c);
        assert(v@ =~= decimal(n as nat));
        v
    } else {
        let mut v = decimal_chars(n / 10);
        v.push(c);
        v
    }
}

/// How the installed size is shown: `<n> KB`, or `unknown` for 0.
pub fn size_label(kb: u64) -> (r: String)
    ensures
        kb > 0 ==> r@ == decimal(kb as nat) + " KB"@,
        kb == 0 ==> r@ == "unknown"@,
{
    if kb > 0 {
        let digits = decimal_chars(kb);
        let s = string_of(digits.as_slice());
        s.concat(" KB")
    } else {
        String::from_str("unknown")
    }
}

/// How the dependencies are shown: joined with `, `, or `none`.
pub fn depends_label(depends: &Vec<String>) -> (r: String)
    ensures
        depends.len() == 0 ==> r@ == "none"@,
        depends.len() > 0 ==> r@ == join_comma(string_views(depends@)),
{
    if depends.len() == 0 {
        return String::from_str("none");
    }
    let ghost dv = string_views(depends@);
    let mut out = depends[0].clone();
    let mut i: usize = 1;
    assert(dv.take(1) =~= seq![dv[0]]);
    while i < depends.len()
        invariant
            1 <= i <= depends.len(),
            dv == string_views(depends@),
            out@ == join_comma(dv.take(i as int)),
        decreases depends.len() - i,
    {
        assert(dv.take(i + 1).drop_last() =~= dv.take(i as int));
        out.append(", ");
        out.append(depends[i].as_str());
        i = i + 1;
    }
    assert(dv.take(depends.len() as int) =~= dv);
    out
}

impl InstallState {
    /// The screen before a file is chosen.
    pub fn new() -> (r: InstallState)
        ensures
            r is Idle,
    {
        InstallState::Idle
    }

    /// A file was chosen. Returns whether its metadata must be read: a file
    /// whose extension is exactly `deb` is being read; any other file ends
    /// in a failure message.
    pub fn file_chosen(&mut self, path: &str) -> (r: bool)
        ensures
            r == (path_extension(path@) == Some("deb"@)),
            r ==> (*final(self) matches InstallState::LoadingInfo(p) && p@ == path@),
            !r ==> (*final(self) matches InstallState::Done { message, success } && !success
                && message@ == "Selected file is not a .deb package."@),
    {
        let is_deb = match extension_of(path) {
            Some(e) => crate::text::str_eq(e.as_str(), "deb"),
            None => false,
        };
        if is_deb {
            *self = InstallState::LoadingInfo(String::from_str(path));
            true
        } else {
            *self = InstallState::Done {
                message: String::from_str("Selected file is not a .deb package."),
                success: false,
            };
            false
        }
    }

    /// The metadata was read (or reading failed with the given message).
    /// The chosen file is the one being read (none if the screen moved on).
    pub fn info_read(&mut self, result: Result<DebInfo, String>)
        ensures
            match result {
                Ok(info) => *final(self) matches InstallState::FileSelected { path: p, info: i }
                    && i == info && p@ == match *old(self) {
                    InstallState::LoadingInfo(q) => q@,
                    _ => Seq::<char>::empty(),
                },
                Err(e) => *final(self) matches InstallState::Done { message, success } && !success
                    && message@ == "Failed to read .deb info: "@ + e@,
            },
    {
        match result {
            Ok(info) => {
                let p = match &*self {
                    InstallState::LoadingInfo(p) => p.clone(),
                    _ => String::new(),
                };
                *self = InstallState::FileSelected { path: p, info };
            },
            Err(e) => {
                let m = String::from_str("Failed to read .deb info: ");
                *self = InstallState::Done { message: m.concat(e.as_str()), success: false };
            },
        }
    }

    /// The install button was pressed. Only a selected file can be
    /// installed: the screen then shows it installing, and its path and
    /// metadata are returned; otherwise nothing changes.
    pub fn start_install(&mut self) -> (r: Option<(String, DebInfo)>)
        ensures
            match *old(self) {
                InstallState::FileSelected { path, info } => {
                    &&& (r matches Some((p, i)) && p@ == path@ && same_info(i, info))
                    &&& (*final(self) matches InstallState::Installing { info: j } && j == info)
                },
                _ => r.is_none() && *final(self) == *old(self),
            },
    {
        let taken = match &*self {
            InstallState::FileSelected { path, info } => Some((path.clone(), copy_info(info))),
            _ => None,
        };
        match taken {
            Some((p, i)) => {
                let mut old_state = InstallState::Idle;
                std::mem::swap(&mut old_state, self);
                match old_state {
                    InstallState::FileSelected { path: _, info } => {
                        *self = InstallState::Installing { info };
                    },
                    _ => {},
                }
                Some((p, i))
            },
            None => None,
        }
    }

    /// The installation of package `name` ended, with the given failure
    /// message if it failed.
    pub fn install_finished(&mut self, name: &str, result: Result<(), String>)
        ensures
            match result {
                Ok(_) => *final(self) matches InstallState::Done { message, success } && success
                    && message@ == "Package '"@ + name@ + "' installed successfully."@,
                Err(e) => *final(self) matches InstallState::Done { message, success } && !success
                    && message@ == "Installation failed: "@ + e@,
            },
    {
        match result {
            Ok(_) => {
                let m = String::from_str("Package '").concat(name).concat(
                    "' installed successfully.",
                );
                *self = InstallState::Done { message: m, success: true };
            },
            Err(e) => {
                let m = String::from_str("Installation failed: ").concat(e.as_str());
                *self = InstallState::Done { message: m, success: false };
            },
        }
    }

    /// Back to choosing a file.
    pub fn reset(&mut self)
        ensures
            *final(self) is Idle,
    {
        *self = InstallState::Idle;
    }
}

} // verus!
