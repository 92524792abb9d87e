//! Plugin discovery: the naming rule for plugin executables.
//!
//! A file is a plugin candidate when its name is `clarion-plugin-<suffix>`
//! with a suffix of at least one character drawn from `[A-Za-z0-9_-]`.
//! Names such as `clarion-plugin-` (empty suffix) or `clarion-plugin` (no
//! second hyphen) are rejected.
//!
//! While `$PATH` is walked, [`PathScan`] decides which entries are looked at:
//! empty entries and directories already scanned are skipped, and when the
//! same executable name appears in several directories the first occurrence
//! wins. A plugin's `plugin.toml` is looked for next to its executable
//! first, then, when the executable sits in a directory named `bin`, under
//! the install prefix ([`manifest_search_order`]). Reading directories and
//! files is done by the binary.

use vstd::prelude::*;

use crate::plugin::jail::io_error_text;

verus! {

/// The prefix every plugin executable's name starts with.
pub open spec fn plugin_prefix() -> Seq<char> {
    seq!['c', 'l', 'a', 'r', 'i', 'o', 'n', '-', 'p', 'l', 'u', 'g', 'i', 'n', '-']
}

/// `c` may appear in a plugin suffix: `[A-Za-z0-9_-]`.
pub open spec fn is_suffix_char(c: char) -> bool {
    ('a' <= c && c <= 'z') || ('A' <= c && c <= 'Z') || ('0' <= c && c <= '9') || c == '_' || c
        == '-'
}

/// The suffix of a plugin executable's name, if the name is one.
pub open spec fn plugin_suffix(name: Seq<char>) -> Option<Seq<char>> {
    let p = plugin_prefix();
    let suffix = name.skip(p.len() as int);
    if name.len() > p.len() && name.take(p.len() as int) == p && (forall|i: int|
        0 <= i < suffix.len() ==> is_suffix_char(#[trigger] suffix[i])) {
        Some(suffix)
    } else {
        None
    }
}

fn suffix_char(c: char) -> (b: bool)
    ensures
        b == is_suffix_char(c),
{
    ('a' <= c && c <= 'z') || ('A' <= c && c <= 'Z') || ('0' <= c && c <= '9') || c == '_' || c
        == '-'
}

/// The `<suffix>` of a `clarion-plugin-<suffix>` name, or `None`.
pub fn extract_plugin_suffix(name: &str) -> (r: Option<&str>)
    ensures
        match plugin_suffix(name@) {
            Some(s) => (r matches Some(t) && t@ == s),
            None => r is None,
        },
{
    let chars = crate::text::chars_of(name);
    let prefix: [char; 15] = [
        'c', 'l', 'a', 'r', 'i', 'o', 'n', '-', 'p', 'l', 'u', 'g', 'i', 'n', '-',
    ];
    assert(prefix@ =~= plugin_prefix());
    if chars.len() <= 15 {
        return None;
    }
    let mut i: usize = 0;
    while i < 15
        invariant
            i <= 15,
            chars@ == name@,
            chars@.len() > 15,
            prefix@ == plugin_prefix(),
            forall|k: int| 0 <= k < i ==> chars@[k] == plugin_prefix()[k],
        decreases 15 - i,
    {
        if chars[i] != prefix[i] {
            assert(name@.take(15) != plugin_prefix()) by {
                assert(name@.take(15)[i as int] != plugin_prefix()[i as int]);
            }
            return None;
        }
        i = i + 1;
    }
    assert(name@.take(15) =~= plugin_prefix());
    let ghost suffix = name@.skip(15);
    let mut j: usize = 15;
    while j < chars.len()
        invariant
            15 <= j <= chars@.len(),
            chars@ == name@,
            suffix == name@.skip(15),
            forall|k: int| 0 <= k < j - 15 ==> is_suffix_char(#[trigger] suffix[k]),
        decreases chars@.len() - j,
    {
        if !suffix_char(chars[j]) {
            assert(!is_suffix_char(suffix[j - 15]));
            return None;
        }
        j = j + 1;
    }
    Some(name.substring_char(15, chars.len()))
}

/// Why one plugin candidate could not be loaded; the other candidates are
/// unaffected. Paths are held as displayed text.
#[derive(Debug)]
pub enum DiscoveryError {
    /// No `plugin.toml` next to the executable nor under the install prefix.
    ManifestNotFound { executable: String },
    /// The manifest was found but did not parse or validate; carries the
    /// parser's text.
    ManifestInvalid { path: String, source: String },
    /// Reading the manifest failed.
    Io { path: String, source: std::io::Error },
}

/// The text of a discovery error. `io` stands for the text of an I/O error,
/// which comes from the operating system and is not modelled.
pub open spec fn discovery_error_text(e: DiscoveryError, io: Seq<char>) -> Seq<char> {
    match e {
        DiscoveryError::ManifestNotFound { executable } => "no plugin.toml found for "@ + executable@
            + " (searched neighbor dir and install-prefix share/)"@,
        DiscoveryError::ManifestInvalid { path, source } => "plugin.toml at "@ + path@
            + " failed to parse: "@ + source@,
        DiscoveryError::Io { path, source: _ } => "io error reading "@ + path@ + ": "@ + io,
    }
}

impl DiscoveryError {
    /// Human-readable description of the error.
    pub fn message(&self) -> (s: String)
        ensures
            exists|io: Seq<char>| s@ == #[trigger] discovery_error_text(*self, io),
    {
        match self {
            DiscoveryError::ManifestNotFound { executable } => {
                let mut s = String::from_str("no plugin.toml found for ");
                s.append(executable.as_str());
                s.append(" (searched neighbor dir and install-prefix share/)");
                assert(s@ == discovery_error_text(*self, Seq::empty()));
                s
            },
            DiscoveryError::ManifestInvalid { path, source } => {
                let mut s = String::from_str("plugin.toml at ");
                s.append(path.as_str());
                s.append(" failed to parse: ");
                s.append(source.as_str());
                assert(s@ == discovery_error_text(*self, Seq::empty()));
                s
            },
            DiscoveryError::Io { path, source } => {
                let mut s = String::from_str("io error reading ");
                s.append(path.as_str());
                s.append(": ");
                let t = io_error_text(source);
                s.append(t.as_str());
                assert(s@ == discovery_error_text(*self, t@));
                s
            },
        }
    }
}

/// Where a plugin's `plugin.toml` may be, relative to the directory holding
/// its executable.
#[derive(Debug, Clone, Copy, PartialEq, Eq)]
pub enum ManifestLocation {
    /// `<dir>/plugin.toml`.
    Neighbor,
    /// `<dir>/../share/clarion/plugins/<suffix>/plugin.toml`.
    InstallPrefix,
}

/// The places to look, in order, for the manifest of an executable whose
/// directory is named `dir_name`.
pub open spec fn manifest_order(dir_name: Option<Seq<char>>) -> Seq<ManifestLocation> {
    if dir_name == Some("bin"@) {
        seq![ManifestLocation::Neighbor, ManifestLocation::InstallPrefix]
    } else {
        seq![ManifestLocation::Neighbor]
    }
}

/// Where to look for the manifest of a plugin executable, in order, given
/// the name of the directory holding it (`None` when it has no UTF-8 name):
/// the neighbor `plugin.toml` first, then, only for a directory named `bin`,
/// the install-prefix one. The first that exists is the manifest.
pub fn manifest_search_order(dir_name: Option<&str>) -> (v: Vec<ManifestLocation>)
    ensures
        v@ == manifest_order(
            match dir_name {
                Some(n) => Some(n@),
                None => None,
            },
        ),
{
    let mut v = Vec::new();
    v.push(ManifestLocation::Neighbor);
    match dir_name {
        Some(n) => {
            if crate::text::same_text(n, "bin") {
                v.push(ManifestLocation::InstallPrefix);
            }
        },
        None => {},
    }
    v
}

/// Whether the `$PATH` entry `raw`, whose canonical form is `canonical`, is
/// scanned: it is not empty and no earlier entry had the same canonical form.
pub open spec fn dir_entered(dirs: Seq<Seq<u8>>, raw: Seq<u8>, canonical: Seq<u8>) -> bool {
    raw.len() > 0 && !dirs.contains(canonical)
}

/// The scanned directories after offering `raw` / `canonical`.
pub open spec fn dirs_after(dirs: Seq<Seq<u8>>, raw: Seq<u8>, canonical: Seq<u8>) -> Seq<Seq<u8>> {
    if dir_entered(dirs, raw, canonical) {
        dirs.push(canonical)
    } else {
        dirs
    }
}

/// The suffix of `name` when it names a plugin executable (a file with an
/// exec bit, `executable`) that no earlier directory already supplied. A
/// file that is not executable shadows nothing, as with `which`.
pub open spec fn name_taken(names: Seq<Seq<char>>, name: Seq<char>, executable: bool) -> Option<
    Seq<char>,
> {
    match plugin_suffix(name) {
        Some(s) => if !executable || names.contains(name) {
            None
        } else {
            Some(s)
        },
        None => None,
    }
}

/// The taken names after offering `name`.
pub open spec fn names_after(names: Seq<Seq<char>>, name: Seq<char>, executable: bool) -> Seq<
    Seq<char>,
> {
    if name_taken(names, name, executable) is Some {
        names.push(name)
    } else {
        names
    }
}

/// The taken names after offering each of `cands` (a name and whether the
/// file is executable) in turn.
pub open spec fn names_after_all(names: Seq<Seq<char>>, cands: Seq<(Seq<char>, bool)>) -> Seq<
    Seq<char>,
>
    decreases cands.len(),
{
    if cands.len() == 0 {
        names
    } else {
        names_after(names_after_all(names, cands.drop_last()), cands.last().0, cands.last().1)
    }
}

/// Law: once an executable name has been taken, a later directory's
/// executable of the same name is not (the first occurrence on `$PATH`
/// wins).
pub proof fn law_first_occurrence_wins(
    names: Seq<Seq<char>>,
    name: Seq<char>,
    later: Seq<(Seq<char>, bool)>,
    executable: bool,
)
    requires
        name_taken(names, name, true) is Some,
    ensures
        name_taken(names_after_all(names_after(names, name, true), later), name, executable) is None,
    decreases later.len(),
{
    if later.len() > 0 {
        law_first_occurrence_wins(names, name, later.drop_last(), executable);
        let prev = names_after_all(names_after(names, name, true), later.drop_last());
        assert(prev.contains(name)) by {
            lemma_taken_stays(names, name, later.drop_last());
        }
        assert(names_after(prev, later.last().0, later.last().1).contains(name)) by {
            let k = choose|k: int| 0 <= k < prev.len() && prev[k] == name;
            assert(names_after(prev, later.last().0, later.last().1)[k] == name);
        }
    } else {
        assert(names_after(names, name, true)[names.len() as int] == name);
    }
}

proof fn lemma_taken_stays(names: Seq<Seq<char>>, name: Seq<char>, later: Seq<(Seq<char>, bool)>)
    requires
        name_taken(names, name, true) is Some,
    ensures
        names_after_all(names_after(names, name, true), later).contains(name),
    decreases later.len(),
{
    if later.len() > 0 {
        lemma_taken_stays(names, name, later.drop_last());
        let prev = names_after_all(names_after(names, name, true), later.drop_last());
        let k = choose|k: int| 0 <= k < prev.len() && prev[k] == name;
        assert(names_after(prev, later.last().0, later.last().1)[k] == name);
    } else {
        assert(names_after(names, name, true)[names.len() as int] == name);
    }
}

/// Law: the executable names taken during a scan are pairwise distinct, and
/// each is a plugin executable name.
pub proof fn law_taken_names_distinct(names: Seq<Seq<char>>, cands: Seq<(Seq<char>, bool)>)
    requires
        names.no_duplicates(),
        forall|i: int| 0 <= i < names.len() ==> plugin_suffix(#[trigger] names[i]) is Some,
    ensures
        names_after_all(names, cands).no_duplicates(),
        forall|i: int|
            0 <= i < names_after_all(names, cands).len() ==> plugin_suffix(
                #[trigger] names_after_all(names, cands)[i],
            ) is Some,
    decreases cands.len(),
{
    if cands.len() > 0 {
        law_taken_names_distinct(names, cands.drop_last());
        let prev = names_after_all(names, cands.drop_last());
        let name = cands.last().0;
        if name_taken(prev, name, cands.last().1) is Some {
            let next = prev.push(name);
            assert forall|i: int, j: int| 0 <= i < next.len() && 0 <= j < next.len() && i != j implies next[i]
                != next[j] by {
                if i == prev.len() as int {
                    assert(!prev.contains(name));
                    assert(prev[j] != name);
                } else if j == prev.len() as int {
                    assert(!prev.contains(name));
                    assert(prev[i] != name);
                }
            }
        }
    }
}

/// Law: a directory is scanned at most once, whatever entry names it later.
pub proof fn law_directory_scanned_once(
    dirs: Seq<Seq<u8>>,
    raw: Seq<u8>,
    canonical: Seq<u8>,
    later_raw: Seq<u8>,
)
    requires
        dir_entered(dirs, raw, canonical),
    ensures
        !dir_entered(dirs_after(dirs, raw, canonical), later_raw, canonical),
{
    assert(dirs_after(dirs, raw, canonical)[dirs.len() as int] == canonical);
}

fn bytes_equal(a: &Vec<u8>, b: &[u8]) -> (r: bool)
    ensures
        r == (a@ == b@),
{
    if a.len() != b.len() {
        return false;
    }
    let mut i: usize = 0;
    while i < a.len()
        invariant
            a@.len() == b@.len(),
            i <= a@.len(),
            forall|k: int| 0 <= k < i ==> a@[k] == b@[k],
        decreases a@.len() - i,
    {
        if a[i] != b[i] {
            return false;
        }
        i = i + 1;
    }
    assert(a@ =~= b@);
    true
}

/// What a `$PATH` walk has seen so far: the canonical forms of the
/// directories scanned (as bytes) and the plugin executable names taken.
pub struct PathScan {
    seen_dirs: Vec<Vec<u8>>,
    seen_names: Vec<String>,
}

impl PathScan {
    /// The canonical forms of the directories scanned, in order.
    pub closed spec fn dirs(&self) -> Seq<Seq<u8>> {
        self.seen_dirs@.map_values(|d: Vec<u8>| d@)
    }

    /// The executable names taken, in order.
    pub closed spec fn names(&self) -> Seq<Seq<char>> {
        self.seen_names@.map_values(|n: String| n@)
    }

    /// A scan that has seen nothing.
    pub fn new() -> (s: Self)
        ensures
            s.dirs() == Seq::<Seq<u8>>::empty(),
            s.names() == Seq::<Seq<char>>::empty(),
    {
        let s = PathScan { seen_dirs: Vec::new(), seen_names: Vec::new() };
        assert(s.dirs() =~= Seq::<Seq<u8>>::empty());
        assert(s.names() =~= Seq::<Seq<char>>::empty());
        s
    }

    /// Whether to scan the `$PATH` entry `raw`, whose canonical form (or
    /// `raw` itself, when it cannot be canonicalised) is `canonical`. Empty
    /// entries are skipped (an empty entry would mean the working
    /// directory, which is not searched), and so is a directory already
    /// scanned; otherwise it is recorded as scanned.
    pub fn enter_dir(&mut self, raw: &[u8], canonical: Vec<u8>) -> (b: bool)
        ensures
            b == dir_entered(old(self).dirs(), raw@, canonical@),
            final(self).dirs() == dirs_after(old(self).dirs(), raw@, canonical@),
            final(self).names() == old(self).names(),
    {
        if raw.len() == 0 {
            return false;
        }
        let ghost view = self.dirs();
        let mut i: usize = 0;
        while i < self.seen_dirs.len()
            invariant
                i <= self.seen_dirs@.len(),
                view == self.dirs(),
                forall|k: int| 0 <= k < i ==> view[k] != canonical@,
            decreases self.seen_dirs@.len() - i,
        {
            if bytes_equal(&canonical, self.seen_dirs[i].as_slice()) {
                assert(view[i as int] == canonical@);
                return false;
            }
            i = i + 1;
        }
        let ghost before = self.seen_dirs@;
        self.seen_dirs.push(canonical);
        assert(self.seen_dirs@.map_values(|d: Vec<u8>| d@) =~= before.map_values(|d: Vec<u8>| d@).push(
            canonical@,
        ));
        true
    }

    /// The plugin suffix of `file_name`, when it names a plugin executable
    /// (`executable`: the file has an exec bit) that no earlier directory
    /// supplied; the name is then taken, so that a later directory's
    /// executable of the same name is shadowed. A file that is not
    /// executable takes nothing and shadows nothing.
    pub fn take_name(&mut self, file_name: &str, executable: bool) -> (r: Option<String>)
        ensures
            match name_taken(old(self).names(), file_name@, executable) {
                Some(s) => (r matches Some(t) && t@ == s),
                None => r is None,
            },
            final(self).names() == names_after(old(self).names(), file_name@, executable),
            final(self).dirs() == old(self).dirs(),
    {
        if !executable {
            return None;
        }
        let suffix = match extract_plugin_suffix(file_name) {
            Some(s) => String::from_str(s),
            None => {
                return None;
            },
        };
        let ghost view = self.names();
        let mut i: usize = 0;
        while i < self.seen_names.len()
            invariant
                i <= self.seen_names@.len(),
                view == self.names(),
                forall|k: int| 0 <= k < i ==> view[k] != file_name@,
            decreases self.seen_names@.len() - i,
        {
            if crate::text::same_text(self.seen_names[i].as_str(), file_name) {
                assert(view[i as int] == file_name@);
                return None;
            }
            i = i + 1;
        }
        let ghost before = self.seen_names@;
        self.seen_names.push(String::from_str(file_name));
        assert(self.seen_names@.map_values(|n: String| n@) =~= before.map_values(|n: String| n@).push(
            file_name@,
        ));
        Some(suffix)
    }
}

} // verus!
