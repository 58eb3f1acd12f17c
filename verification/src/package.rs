//! The package description format: a line-based `key = value` file, and the
//! package it describes.
use vstd::prelude::*;
use crate::text::{
    lemma_split_by_concat, lemma_split_by_no_sep,
    chars_of, comma_list, concat3, is_ws, range_is, range_texts, sep_pred, split_by, split_ranges,
    split_text, text_eq, text_of, trim, trim_range, views, words, Sep,
};

verus! {

/// How a package is built.
#[derive(Debug, PartialEq, Eq)]
pub enum BuildSystem {
    Autotools,
    Cmake,
    Meson,
    Cargo,
    Python,
    Make,
    /// Shell commands given in the package file itself.
    Manual { build_commands: Vec<String>, install_command: String },
}

/// A package as its description file gives it.
#[derive(Debug, PartialEq, Eq)]
pub struct Package {
    pub name: String,
    pub version: String,
    pub description: String,
    pub source: String,
    pub build_system: BuildSystem,
    pub depends: Vec<String>,
    pub configure_args: Vec<String>,
    pub multilib_support: bool,
    pub multilib_configure_args: Vec<String>,
}

/// The mathematical model of a `BuildSystem`.
pub enum BuildSystemView {
    Autotools,
    Cmake,
    Meson,
    Cargo,
    Python,
    Make,
    Manual { build_commands: Seq<Seq<char>>, install_command: Seq<char> },
}

/// The mathematical model of a `Package`.
pub struct PackageView {
    pub name: Seq<char>,
    pub version: Seq<char>,
    pub description: Seq<char>,
    pub source: Seq<char>,
    pub build_system: BuildSystemView,
    pub depends: Seq<Seq<char>>,
    pub configure_args: Seq<Seq<char>>,
    pub multilib_support: bool,
    pub multilib_configure_args: Seq<Seq<char>>,
}

impl View for BuildSystem {
    type V = BuildSystemView;

    open spec fn view(&self) -> BuildSystemView {
        match self {
            BuildSystem::Autotools => BuildSystemView::Autotools,
            BuildSystem::Cmake => BuildSystemView::Cmake,
            BuildSystem::Meson => BuildSystemView::Meson,
            BuildSystem::Cargo => BuildSystemView::Cargo,
            BuildSystem::Python => BuildSystemView::Python,
            BuildSystem::Make => BuildSystemView::Make,
            BuildSystem::Manual { build_commands, install_command } => BuildSystemView::Manual {
                build_commands: views(build_commands@),
                install_command: install_command@,
            },
        }
    }
}

impl View for Package {
    type V = PackageView;

    open spec fn view(&self) -> PackageView {
        PackageView {
            name: self.name@,
            version: self.version@,
            description: self.description@,
            source: self.source@,
            build_system: self.build_system@,
            depends: views(self.depends@),
            configure_args: views(self.configure_args@),
            multilib_support: self.multilib_support,
            multilib_configure_args: views(self.multilib_configure_args@),
        }
    }
}

/// The lines of a package file. Cutting at every newline differs from
/// `str::lines` only in pieces that are blank once trimmed, which the format
/// skips either way.
pub open spec fn file_lines(content: Seq<char>) -> Seq<Seq<char>> {
    split_by(content, |c: char| c == '\n')
}

/// Whether `c` occurs in `s`.
pub open spec fn has_char(s: Seq<char>, c: char) -> bool {
    exists|i: int| 0 <= i < s.len() && s[i] == c
}

/// The position of the first `c` in `s`, where there is one.
pub open spec fn first_index(s: Seq<char>, c: char) -> int {
    choose|i: int| 0 <= i < s.len() && s[i] == c && forall|j: int| 0 <= j < i ==> s[j] != c
}

/// A value without the pair of double quotes that encloses it, if it has one.
pub open spec fn unquote(v: Seq<char>) -> Seq<char> {
    if v.len() >= 2 && v[0] == '"' && v.last() == '"' {
        v.subrange(1, v.len() - 1)
    } else {
        v
    }
}

/// The key and value that a line assigns: none for a blank line, a comment
/// (`#`), a section header (`[`) or a line without `=`. Key and value are the
/// trimmed text before and after the first `=`; the value loses enclosing quotes.
pub open spec fn assignment(line: Seq<char>) -> Option<(Seq<char>, Seq<char>)> {
    let t = trim(line);
    if t.len() == 0 || t[0] == '#' || t[0] == '[' || !has_char(t, '=') {
        None
    } else {
        let i = first_index(t, '=');
        Some((trim(t.subrange(0, i)), unquote(trim(t.subrange(i + 1, t.len() as int)))))
    }
}

/// The value of the last line among `lines` that assigns `key`.
pub open spec fn last_value(lines: Seq<Seq<char>>, key: Seq<char>) -> Option<Seq<char>>
    decreases lines.len(),
{
    if lines.len() == 0 {
        None
    } else {
        match assignment(lines.last()) {
            Some(kv) => if kv.0 == key {
                Some(kv.1)
            } else {
                last_value(lines.drop_last(), key)
            },
            None => last_value(lines.drop_last(), key),
        }
    }
}

/// The value that the file gives `key`, empty when no line assigns it.
pub open spec fn field(content: Seq<char>, key: Seq<char>) -> Seq<char> {
    match last_value(file_lines(content), key) {
        Some(v) => v,
        None => Seq::<char>::empty(),
    }
}

/// The build system that a file names, or the reason it is refused.
pub open spec fn spec_build_system(content: Seq<char>) -> Result<BuildSystemView, Seq<char>> {
    let system = field(content, "system"@);
    if system == "autotools"@ {
        Ok(BuildSystemView::Autotools)
    } else if system == "cmake"@ {
        Ok(BuildSystemView::Cmake)
    } else if system == "meson"@ {
        Ok(BuildSystemView::Meson)
    } else if system == "cargo"@ {
        Ok(BuildSystemView::Cargo)
    } else if system == "python"@ {
        Ok(BuildSystemView::Python)
    } else if system == "make"@ {
        Ok(BuildSystemView::Make)
    } else if system == "manual"@ {
        match last_value(file_lines(content), "build_commands"@) {
            None => Err("manual build system requires 'build_commands' field"@),
            Some(commands) => if field(content, "install_command"@).len() == 0 {
                Err("manual build system requires 'install_command' field"@)
            } else {
                Ok(
                    BuildSystemView::Manual {
                        build_commands: seq![commands],
                        install_command: field(content, "install_command"@),
                    },
                )
            },
        }
    } else {
        Err("unknown build system: '"@ + system + "'"@)
    }
}

/// The package that a package file describes, or the reason it is refused.
pub open spec fn spec_parse_package(content: Seq<char>) -> Result<PackageView, Seq<char>> {
    match spec_build_system(content) {
        Err(e) => Err(e),
        Ok(build_system) => if field(content, "name"@).len() == 0 || field(
            content,
            "source"@,
        ).len() == 0 {
            Err("name and source are required fields in package"@)
        } else {
            Ok(
                PackageView {
                    name: field(content, "name"@),
                    version: field(content, "version"@),
                    description: field(content, "description"@),
                    source: field(content, "source"@),
                    build_system,
                    depends: comma_list(field(content, "depends"@)),
                    configure_args: words(field(content, "configure_args"@)),
                    multilib_support: field(content, "multilib_support"@) == "true"@,
                    multilib_configure_args: words(field(content, "multilib_configure_args"@)),
                },
            )
        },
    }
}

/// The number of keys that the format knows.
pub const NUM_KEYS: usize = 11;

/// The keys that the format knows, by number.
pub open spec fn key_name(i: int) -> Seq<char> {
    if i == 0 {
        "name"@
    } else if i == 1 {
        "version"@
    } else if i == 2 {
        "description"@
    } else if i == 3 {
        "source"@
    } else if i == 4 {
        "system"@
    } else if i == 5 {
        "depends"@
    } else if i == 6 {
        "configure_args"@
    } else if i == 7 {
        "build_commands"@
    } else if i == 8 {
        "install_command"@
    } else if i == 9 {
        "multilib_support"@
    } else {
        "multilib_configure_args"@
    }
}

fn key_text(i: usize) -> (r: &'static str)
    requires
        i < NUM_KEYS,
    ensures
        r@ == key_name(i as int),
{
    if i == 0 {
        "name"
    } else if i == 1 {
        "version"
    } else if i == 2 {
        "description"
    } else if i == 3 {
        "source"
    } else if i == 4 {
        "system"
    } else if i == 5 {
        "depends"
    } else if i == 6 {
        "configure_args"
    } else if i == 7 {
        "build_commands"
    } else if i == 8 {
        "install_command"
    } else if i == 9 {
        "multilib_support"
    } else {
        "multilib_configure_args"
    }
}

/// The text that an optional range of `v` stands for.
pub open spec fn slot_value(v: Seq<char>, slot: Option<(usize, usize)>) -> Option<Seq<char>> {
    match slot {
        Some(r) => Some(v.subrange(r.0 as int, r.1 as int)),
        None => None,
    }
}

/// The ranges of the key and of the value that line `v[lo..hi]` assigns.
fn line_assignment(v: &Vec<char>, lo: usize, hi: usize) -> (r: Option<((usize, usize), (usize, usize))>)
    requires
        lo <= hi <= v@.len(),
    ensures
        match r {
            Some(kv) => {
                &&& lo <= kv.0.0 <= kv.0.1 <= hi
                &&& lo <= kv.1.0 <= kv.1.1 <= hi
                &&& assignment(v@.subrange(lo as int, hi as int)) == Some(
                    (
                        v@.subrange(kv.0.0 as int, kv.0.1 as int),
                        v@.subrange(kv.1.0 as int, kv.1.1 as int),
                    ),
                )
            },
            None => assignment(v@.subrange(lo as int, hi as int)) is None,
        },
{
    let ghost line = v@.subrange(lo as int, hi as int);
    let (a, b) = trim_range(v, lo, hi);
    let ghost t = v@.subrange(a as int, b as int);
    assert(t == trim(line));
    if a == b || v[a] == '#' || v[a] == '[' {
        return None;
    }
    let mut e = a;
    while e < b && v[e] != '='
        invariant
            a <= e <= b <= v@.len(),
            t == v@.subrange(a as int, b as int),
            forall|j: int| 0 <= j < e - a ==> t[j] != '=',
        decreases b - e,
    {
        e = e + 1;
    }
    if e == b {
        assert(!has_char(t, '='));
        return None;
    }
    assert(t[e - a] == '=');
    let ghost i = first_index(t, '=');
    assert(has_char(t, '='));
    assert(i == e - a) by {
        if i < e - a {
            assert(t[i] != '=');
        } else if i > e - a {
            assert(t[e - a] != '=');
        }
    }
    let (ka, kb) = trim_range(v, a, e);
    let (va, vb) = trim_range(v, e + 1, b);
    assert(t.subrange(0, i) =~= v@.subrange(a as int, e as int));
    assert(t.subrange(i + 1, t.len() as int) =~= v@.subrange(e + 1, b as int));
    let ghost val = v@.subrange(va as int, vb as int);
    if vb - va >= 2 && v[va] == '"' && v[vb - 1] == '"' {
        assert(val.subrange(1, val.len() - 1) =~= v@.subrange(va + 1, vb - 1));
        Some(((ka, kb), (va + 1, vb - 1)))
    } else {
        Some(((ka, kb), (va, vb)))
    }
}

/// The text of an optional range of `content`, empty when there is none.
fn slot_text(content: &str, v: &Vec<char>, slot: Option<(usize, usize)>) -> (r: String)
    requires
        v@ == content@,
        slot matches Some(s) ==> s.0 <= s.1 <= v@.len(),
    ensures
        r@ == match slot_value(v@, slot) {
            Some(x) => x,
            None => Seq::<char>::empty(),
        },
{
    match slot {
        Some((lo, hi)) => text_of(content, lo, hi),
        None => String::new(),
    }
}

/// Reads a package file. Each known key takes the value of the last line that
/// assigns it; the build system must be one that rad knows, a manual one needs
/// its commands, and the name and the source must not be empty.
pub fn parse_package(content: &str) -> (r: Result<Package, String>)
    ensures
        match r {
            Ok(p) => spec_parse_package(content@) == Ok::<PackageView, Seq<char>>(p@),
            Err(e) => spec_parse_package(content@) == Err::<PackageView, Seq<char>>(e@),
        },
{
    let v = chars_of(content);
    let lines = split_ranges(&v, 0, v.len(), Sep::Char('\n'));
    assert(v@.subrange(0, v@.len() as int) =~= v@);
    let ghost ls = file_lines(content@);
    assert(range_texts(v@, lines@) == ls);
    let mut slots: Vec<Option<(usize, usize)>> = Vec::new();
    let mut i: usize = 0;
    while i < NUM_KEYS
        invariant
            i <= NUM_KEYS,
            slots@.len() == i,
            forall|j: int| 0 <= j < i ==> slots@[j] is None,
        decreases NUM_KEYS - i,
    {
        slots.push(None);
        i = i + 1;
    }
    let mut k: usize = 0;
    while k < lines.len()
        invariant
            v@ == content@,
            k <= lines@.len(),
            range_texts(v@, lines@) == ls,
            forall|j: int| 0 <= j < lines@.len() ==> 0 <= #[trigger] lines@[j].0 <= lines@[j].1 <= v@.len(),
            slots@.len() == NUM_KEYS,
            forall|j: int| 0 <= j < NUM_KEYS ==> (#[trigger] slots@[j] matches Some(s) ==> s.0 <= s.1 <= v@.len()),
            forall|j: int|
                0 <= j < NUM_KEYS ==> slot_value(v@, #[trigger] slots@[j]) == last_value(
                    ls.take(k as int),
                    key_name(j),
                ),
        decreases lines@.len() - k,
    {
        let (a, b) = lines[k];
        assert(ls[k as int] == v@.subrange(a as int, b as int));
        assert(ls.take(k + 1).drop_last() =~= ls.take(k as int));
        assert(ls.take(k + 1).last() == ls[k as int]);
        match line_assignment(&v, a, b) {
            None => {},
            Some(((ka, kb), (va, vb))) => {
                let ghost before = slots@;
                let mut j: usize = 0;
                while j < NUM_KEYS
                    invariant
                        v@ == content@,
                        j <= NUM_KEYS,
                        slots@.len() == NUM_KEYS,
                        ka <= kb <= v@.len(),
                        va <= vb <= v@.len(),
                        forall|x: int| 0 <= x < NUM_KEYS ==> (#[trigger] slots@[x] matches Some(s) ==> s.0 <= s.1 <= v@.len()),
                        forall|x: int| j <= x < NUM_KEYS ==> #[trigger] slots@[x] == before[x],
                        forall|x: int|
                            0 <= x < j ==> #[trigger] slots@[x] == (if v@.subrange(
                                ka as int,
                                kb as int,
                            ) == key_name(x) {
                                Some((va, vb))
                            } else {
                                before[x]
                            }),
                    decreases NUM_KEYS - j,
                {
                    if range_is(&v, ka, kb, key_text(j)) {
                        slots.set(j, Some((va, vb)));
                    }
                    j = j + 1;
                }
            },
        }
        k = k + 1;
    }
    assert(ls.take(lines@.len() as int) =~= ls);
    let name = slot_text(content, &v, slots[0]);
    let version = slot_text(content, &v, slots[1]);
    let description = slot_text(content, &v, slots[2]);
    let source = slot_text(content, &v, slots[3]);
    let system = slot_text(content, &v, slots[4]);
    let depends_text = slot_text(content, &v, slots[5]);
    let configure_text = slot_text(content, &v, slots[6]);
    let install_command = slot_text(content, &v, slots[8]);
    let multilib_text = slot_text(content, &v, slots[9]);
    let multilib_configure_text = slot_text(content, &v, slots[10]);
    assert(name@ == field(content@, "name"@));
    assert(version@ == field(content@, "version"@));
    assert(description@ == field(content@, "description"@));
    assert(source@ == field(content@, "source"@));
    assert(system@ == field(content@, "system"@));
    assert(depends_text@ == field(content@, "depends"@));
    assert(configure_text@ == field(content@, "configure_args"@));
    assert(install_command@ == field(content@, "install_command"@));
    assert(multilib_text@ == field(content@, "multilib_support"@));
    assert(multilib_configure_text@ == field(content@, "multilib_configure_args"@));
    assert(slot_value(v@, slots@[7]) == last_value(ls, "build_commands"@));
    let build_system = if text_eq(system.as_str(), "autotools") {
        BuildSystem::Autotools
    } else if text_eq(system.as_str(), "cmake") {
        BuildSystem::Cmake
    } else if text_eq(system.as_str(), "meson") {
        BuildSystem::Meson
    } else if text_eq(system.as_str(), "cargo") {
        BuildSystem::Cargo
    } else if text_eq(system.as_str(), "python") {
        BuildSystem::Python
    } else if text_eq(system.as_str(), "make") {
        BuildSystem::Make
    } else if text_eq(system.as_str(), "manual") {
        match slots[7] {
            None => {
                return Err(String::from_str("manual build system requires 'build_commands' field"));
            },
            Some((lo, hi)) => {
                if install_command.as_str().unicode_len() == 0 {
                    return Err(
                        String::from_str("manual build system requires 'install_command' field"),
                    );
                }
                let command = text_of(content, lo, hi);
                let mut build_commands: Vec<String> = Vec::new();
                build_commands.push(command);
                assert(views(build_commands@) =~= seq![command@]);
                BuildSystem::Manual { build_commands, install_command }
            },
        }
    } else {
        return Err(concat3("unknown build system: '", system.as_str(), "'"));
    };
    assert(spec_build_system(content@) == Ok::<BuildSystemView, Seq<char>>(build_system@));
    if name.as_str().unicode_len() == 0 || source.as_str().unicode_len() == 0 {
        return Err(String::from_str("name and source are required fields in package"));
    }
    let depends = split_text(depends_text.as_str(), Sep::Char(','), true);
    let configure_args = split_text(configure_text.as_str(), Sep::Whitespace, false);
    let multilib_configure_args = split_text(multilib_configure_text.as_str(), Sep::Whitespace, false);
    let multilib_support = text_eq(multilib_text.as_str(), "true");
    assert(sep_pred(Sep::Char(',')) =~= (|x: char| x == ','));
    assert(sep_pred(Sep::Whitespace) =~= (|x: char| is_ws(x)));
    Ok(
        Package {
            name,
            version,
            description,
            source,
            build_system,
            depends,
            configure_args,
            multilib_support,
            multilib_configure_args,
        },
    )
}

/// The last assignment of `key` in `xs + ys` is the one in `ys`, if there is one.
pub proof fn lemma_last_value_concat(xs: Seq<Seq<char>>, ys: Seq<Seq<char>>, key: Seq<char>)
    ensures
        last_value(xs + ys, key) == match last_value(ys, key) {
            Some(v) => Some(v),
            None => last_value(xs, key),
        },
    decreases ys.len(),
{
    if ys.len() == 0 {
        assert(xs + ys =~= xs);
    } else {
        assert((xs + ys).drop_last() =~= xs + ys.drop_last());
        lemma_last_value_concat(xs, ys.drop_last(), key);
    }
}

/// The lines of `content`, a newline and `line` are those of `content` and then `line`.
pub proof fn lemma_lines_append(content: Seq<char>, line: Seq<char>)
    requires
        !has_char(line, '\n'),
    ensures
        file_lines(content + seq!['\n'] + line) == file_lines(content).push(line),
{
    let p = |c: char| c == '\n';
    lemma_split_by_concat(content, '\n', line, p);
    assert forall|i: int| 0 <= i < line.len() implies !p(#[trigger] line[i]) by {
        if line[i] == '\n' {
            assert(has_char(line, '\n'));
        }
    }
    lemma_split_by_no_sep(line, p);
    assert(file_lines(content).push(line) =~= file_lines(content) + seq![line]);
}

/// Why a package file could not be read: its path and the reason given.
pub open spec fn spec_read_error(path: Seq<char>, reason: Seq<char>) -> Seq<char> {
    "cannot read "@ + path + ": "@ + reason
}

/// The package that a read of the file at `path` gives: the parse of its
/// content, or the read error.
pub open spec fn spec_read_package(path: Seq<char>, content: Result<Seq<char>, Seq<char>>) -> Result<
    PackageView,
    Seq<char>,
> {
    match content {
        Ok(c) => spec_parse_package(c),
        Err(e) => Err(spec_read_error(path, e)),
    }
}

/// The message for a package file at `path` that could not be read for `reason`.
pub fn read_error(path: &str, reason: &str) -> (r: String)
    ensures
        r@ == spec_read_error(path@, reason@),
{
    let mut r = concat3("cannot read ", path, ": ");
    r.append(reason);
    r
}

/// The package that reading the file at `path` gives, where `content` is what
/// the read returned: the parsed package, why it is refused, or why the file
/// could not be read.
pub fn read_package(path: &str, content: Result<String, String>) -> (r: Result<Package, String>)
    ensures
        match r {
            Ok(p) => spec_read_package(path@, content_view(content)) == Ok::<PackageView, Seq<char>>(p@),
            Err(e) => spec_read_package(path@, content_view(content)) == Err::<PackageView, Seq<char>>(e@),
        },
{
    match content {
        Ok(c) => parse_package(c.as_str()),
        Err(e) => Err(read_error(path, e.as_str())),
    }
}

/// The model of what a read returned.
pub open spec fn content_view(content: Result<String, String>) -> Result<Seq<char>, Seq<char>> {
    match content {
        Ok(c) => Ok(c@),
        Err(e) => Err(e@),
    }
}

/// Whether `k` is one of the keys that the format knows.
pub open spec fn known_key(k: Seq<char>) -> bool {
    exists|i: int| 0 <= i < NUM_KEYS && key_name(i) == k
}

/// Whether the format ignores `line`: it assigns nothing (blank, a `#`
/// comment, a `[section]` header, text without `=`) or assigns an unknown key.
pub open spec fn ignored_line(line: Seq<char>) -> bool {
    match assignment(line) {
        None => true,
        Some(kv) => !known_key(kv.0),
    }
}

/// Two files whose lines give every known key the same last assignment
/// describe the same package, or are refused for the same reason.
proof fn lemma_same_known_values(c1: Seq<char>, c2: Seq<char>)
    requires
        forall|i: int|
            0 <= i < NUM_KEYS ==> last_value(file_lines(c1), #[trigger] key_name(i)) == last_value(
                file_lines(c2),
                key_name(i),
            ),
    ensures
        spec_parse_package(c1) == spec_parse_package(c2),
{
    assert(key_name(0) == "name"@);
    assert(key_name(1) == "version"@);
    assert(key_name(2) == "description"@);
    assert(key_name(3) == "source"@);
    assert(key_name(4) == "system"@);
    assert(key_name(5) == "depends"@);
    assert(key_name(6) == "configure_args"@);
    assert(key_name(7) == "build_commands"@);
    assert(key_name(8) == "install_command"@);
    assert(key_name(9) == "multilib_support"@);
    assert(key_name(10) == "multilib_configure_args"@);
    assert(spec_build_system(c1) == spec_build_system(c2));
}

/// An ignored line between two runs of lines changes no known key's last assignment.
proof fn lemma_ignored_line_in_lines(xs: Seq<Seq<char>>, line: Seq<char>, ys: Seq<Seq<char>>, i: int)
    requires
        ignored_line(line),
        0 <= i < NUM_KEYS,
    ensures
        last_value(xs.push(line) + ys, key_name(i)) == last_value(xs + ys, key_name(i)),
{
    let k = key_name(i);
    lemma_last_value_concat(xs.push(line), ys, k);
    lemma_last_value_concat(xs, ys, k);
    assert(xs.push(line).drop_last() =~= xs);
    assert(xs.push(line).last() == line);
    if let Some(kv) = assignment(line) {
        if kv.0 == k {
            assert(known_key(kv.0));
        }
    }
}

/// Law: a line that the format ignores (blank, a `#` comment, a `[section]`
/// header, text without `=`, or an assignment of an unknown key) added at the
/// end of a package file leaves what the file describes unchanged, success or
/// refusal alike.
pub proof fn lemma_inert_line_changes_nothing(content: Seq<char>, line: Seq<char>)
    requires
        !has_char(line, '\n'),
        ignored_line(line),
    ensures
        spec_parse_package(content + seq!['\n'] + line) == spec_parse_package(content),
{
    let longer = content + seq!['\n'] + line;
    lemma_lines_append(content, line);
    assert forall|i: int| 0 <= i < NUM_KEYS implies last_value(file_lines(longer), #[trigger] key_name(i))
        == last_value(file_lines(content), key_name(i)) by {
        lemma_ignored_line_in_lines(file_lines(content), line, Seq::empty(), i);
        assert(file_lines(content).push(line) + Seq::<Seq<char>>::empty() =~= file_lines(content).push(line));
        assert(file_lines(content) + Seq::<Seq<char>>::empty() =~= file_lines(content));
    }
    lemma_same_known_values(longer, content);
}

/// Law: a line that the format ignores, inserted anywhere in a package file
/// (at the start, or after any newline), leaves what the file describes
/// unchanged, success or refusal alike. With the law above, for a line added
/// at the very end, this covers every place a line can go.
pub proof fn lemma_ignored_line_anywhere(before: Seq<char>, line: Seq<char>, after: Seq<char>)
    requires
        !has_char(line, '\n'),
        ignored_line(line),
        before.len() == 0 || before.last() == '\n',
    ensures
        spec_parse_package(before + line + seq!['\n'] + after) == spec_parse_package(before + after),
{
    let p = |c: char| c == '\n';
    let longer = before + line + seq!['\n'] + after;
    assert forall|i: int| 0 <= i < line.len() implies !p(#[trigger] line[i]) by {
        if line[i] == '\n' {
            assert(has_char(line, '\n'));
        }
    }
    lemma_split_by_no_sep(line, p);
    lemma_split_by_concat(line, '\n', after, p);
    let tail = file_lines(line + seq!['\n'] + after);
    assert(tail == seq![line] + file_lines(after));
    if before.len() == 0 {
        assert(longer =~= line + seq!['\n'] + after);
        assert(before + after =~= after);
        assert forall|i: int| 0 <= i < NUM_KEYS implies last_value(file_lines(longer), #[trigger] key_name(i))
            == last_value(file_lines(before + after), key_name(i)) by {
            lemma_ignored_line_in_lines(Seq::empty(), line, file_lines(after), i);
            assert(Seq::<Seq<char>>::empty().push(line) + file_lines(after) =~= seq![line] + file_lines(after));
            assert(Seq::<Seq<char>>::empty() + file_lines(after) =~= file_lines(after));
        }
        lemma_same_known_values(longer, before + after);
    } else {
        let b = before.drop_last();
        assert(before =~= b + seq!['\n']);
        assert(longer =~= b + seq!['\n'] + (line + seq!['\n'] + after));
        assert(before + after =~= b + seq!['\n'] + after);
        lemma_split_by_concat(b, '\n', line + seq!['\n'] + after, p);
        lemma_split_by_concat(b, '\n', after, p);
        assert(file_lines(longer) == file_lines(b) + tail);
        assert(file_lines(before + after) == file_lines(b) + file_lines(after));
        assert forall|i: int| 0 <= i < NUM_KEYS implies last_value(file_lines(longer), #[trigger] key_name(i))
            == last_value(file_lines(before + after), key_name(i)) by {
            lemma_ignored_line_in_lines(file_lines(b), line, file_lines(after), i);
            assert(file_lines(b) + (seq![line] + file_lines(after)) =~= file_lines(b).push(line) + file_lines(after));
        }
        lemma_same_known_values(longer, before + after);
    }
}

/// Law: the last line that assigns a key decides its value. A line assigning
/// `key` added at the end of a package file gives `key` that value and leaves
/// every other key as it was.
pub proof fn lemma_last_assignment_wins(
    content: Seq<char>,
    line: Seq<char>,
    key: Seq<char>,
    value: Seq<char>,
    other: Seq<char>,
)
    requires
        !has_char(line, '\n'),
        assignment(line) == Some((key, value)),
        other != key,
    ensures
        field(content + seq!['\n'] + line, key) == value,
        field(content + seq!['\n'] + line, other) == field(content, other),
{
    let longer = content + seq!['\n'] + line;
    lemma_lines_append(content, line);
    assert(file_lines(longer).drop_last() =~= file_lines(content));
    assert(file_lines(longer).last() == line);
}

/// Law: a package that is read successfully has a name and a source, and a
/// manual one has build commands and an install command.
pub proof fn lemma_parsed_package_is_complete(content: Seq<char>)
    requires
        spec_parse_package(content) is Ok,
    ensures
        ({
            let p = spec_parse_package(content)->Ok_0;
            &&& p.name.len() > 0
            &&& p.source.len() > 0
            &&& p.build_system matches BuildSystemView::Manual { build_commands, install_command }
                ==> build_commands.len() > 0 && install_command.len() > 0
        }),
{
}

/// Law: the configure arguments, and the extra ones of a 32-bit build, are
/// the words of their values: each argument is non-empty and holds no
/// whitespace, so a value `a b` gives two arguments; and both lists are cut
/// alike, so equal values give equal lists.
pub proof fn lemma_arguments_are_words(content: Seq<char>)
    requires
        spec_parse_package(content) is Ok,
    ensures
        ({
            let p = spec_parse_package(content)->Ok_0;
            &&& forall|i: int| 0 <= i < p.multilib_configure_args.len()
                ==> #[trigger] p.multilib_configure_args[i].len() > 0
            &&& forall|i: int, j: int|
                0 <= i < p.multilib_configure_args.len() && 0 <= j < p.multilib_configure_args[i].len()
                    ==> !is_ws(#[trigger] p.multilib_configure_args[i][j])
            &&& forall|i: int| 0 <= i < p.configure_args.len() ==> #[trigger] p.configure_args[i].len() > 0
            &&& forall|i: int, j: int|
                0 <= i < p.configure_args.len() && 0 <= j < p.configure_args[i].len()
                    ==> !is_ws(#[trigger] p.configure_args[i][j])
            &&& field(content, "configure_args"@) == field(content, "multilib_configure_args"@)
                ==> p.configure_args == p.multilib_configure_args
        }),
{
    crate::text::lemma_words_hold_no_whitespace(field(content, "configure_args"@));
    crate::text::lemma_words_hold_no_whitespace(field(content, "multilib_configure_args"@));
}

} // verus!
