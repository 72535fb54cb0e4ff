//! What a process in the memory popup actually is.
//!
//! A process's `comm` names its executable, which for anything interpreted is
//! the interpreter. The command line names the script or module, the working
//! directory (or the virtualenv the interpreter belongs to) names the project,
//! and the process's cgroup names what launched it.
use crate::paths::{
    file_name, is_proper, is_rooted, is_same_path, join_path, names, names_of, rooted, same_path,
    seen_from,
};
use crate::text::{
    after_last, chars_of, cut, digit, fills, find, from_utf8_lossy, head, is_digit, lines, listed,
    literals, lossy, lowercase, opt_str, opt_text, pieces, rcut, rsplit_once, same, split, split_once,
    starts_with, strip_prefix, tail, text_lines, texts, to_lowercase, trim, trim_end, trimmed,
    trimmed_end, strip_suffix, unprefixed, unsuffixed, up_to, utf8_len,
};
use crate::number::{decimal, unsigned};
use vstd::prelude::*;
use vstd::string::*;

verus! {

/// What a command line's words mean to one interpreter.
#[verifier::ext_equal]
pub struct Grammar {
    pub family: Seq<char>,
    pub valued: Seq<Seq<char>>,
    pub program: Seq<Seq<char>>,
    pub inline: Seq<Seq<char>>,
    pub subcommands: Seq<Seq<char>>,
}

/// How one interpreter's command line names the program it runs.
#[derive(Debug, Clone)]
pub struct Interpreter {
    pub family: &'static str,
    /// Options followed by a separate value that is not the program.
    pub valued: &'static [&'static str],
    /// Options whose value *is* the program: `python -m pytest`, `java -jar`.
    pub program: &'static [&'static str],
    /// Options that run code from the command line itself: there is no program
    /// to name.
    pub inline: &'static [&'static str],
    /// Leading words that pick a subcommand rather than a program: `deno run`.
    pub subcommands: &'static [&'static str],
}

impl View for Interpreter {
    type V = Grammar;

    open spec fn view(&self) -> Grammar {
        grammar(
            self.family@,
            literals(self.valued@),
            literals(self.program@),
            literals(self.inline@),
            literals(self.subcommands@),
        )
    }
}

pub open spec fn grammar(
    family: Seq<char>,
    valued: Seq<Seq<char>>,
    program: Seq<Seq<char>>,
    inline: Seq<Seq<char>>,
    subcommands: Seq<Seq<char>>,
) -> Grammar {
    Grammar { family, valued, program, inline, subcommands }
}

/// The interpreters that are told apart, by family.
pub open spec fn known(family: Seq<char>) -> Option<Grammar> {
    if family == "python"@ {
        Some(grammar("python"@, seq!["-W"@, "-X"@, "-Q"@, "--check-hash-based-pycs"@], seq!["-m"@], seq!["-c"@], Seq::empty()))
    } else if family == "pypy"@ {
        Some(grammar("pypy"@, seq!["-W"@, "-X"@], seq!["-m"@], seq!["-c"@], Seq::empty()))
    } else if family == "node"@ {
        Some(grammar("node"@, seq!["-r"@, "--require"@, "--import"@, "--loader"@, "--conditions"@, "-C"@], Seq::empty(), seq!["-e"@, "--eval"@, "-p"@, "--print"@], Seq::empty()))
    } else if family == "bun"@ {
        Some(grammar("bun"@, seq!["-r"@, "--preload"@, "--cwd"@], Seq::empty(), seq!["-e"@, "--eval"@, "-p"@, "--print"@], seq!["run"@, "test"@, "x"@]))
    } else if family == "deno"@ {
        Some(grammar("deno"@, seq!["--config"@, "-c"@, "--import-map"@], Seq::empty(), seq!["eval"@], seq!["run"@, "test"@, "serve"@, "task"@]))
    } else if family == "ruby"@ {
        Some(grammar("ruby"@, seq!["-r"@, "-I"@, "-C"@], Seq::empty(), seq!["-e"@], Seq::empty()))
    } else if family == "perl"@ {
        Some(grammar("perl"@, seq!["-I"@, "-M"@], Seq::empty(), seq!["-e"@, "-E"@], Seq::empty()))
    } else if family == "java"@ {
        Some(grammar("java"@, seq!["-cp"@, "-classpath"@, "--class-path"@, "-p"@, "--module-path"@], seq!["-jar"@, "-m"@, "--module"@], Seq::empty(), Seq::empty()))
    } else if family == "julia"@ {
        Some(grammar("julia"@, seq!["--project"@, "-t"@, "--threads"@, "-L"@, "--load"@], Seq::empty(), seq!["-e"@, "--eval"@, "-E"@, "--print"@], Seq::empty()))
    } else if family == "Rscript"@ {
        Some(grammar("Rscript"@, Seq::empty(), Seq::empty(), seq!["-e"@], Seq::empty()))
    } else if family == "lua"@ {
        Some(grammar("lua"@, seq!["-l"@], Seq::empty(), seq!["-e"@], Seq::empty()))
    } else if family == "bash"@ {
        Some(grammar("bash"@, seq!["-o"@, "-O"@, "--rcfile"@, "--init-file"@], Seq::empty(), seq!["-c"@], Seq::empty()))
    } else if family == "sh"@ {
        Some(grammar("sh"@, seq!["-o"@], Seq::empty(), seq!["-c"@], Seq::empty()))
    } else if family == "zsh"@ {
        Some(grammar("zsh"@, seq!["-o"@], Seq::empty(), seq!["-c"@], Seq::empty()))
    } else if family == "fish"@ {
        Some(grammar("fish"@, seq!["-C"@, "--init-command"@], Seq::empty(), seq!["-c"@, "--command"@], Seq::empty()))
    } else {
        None
    }
}

/// `python3.12` is of the family `python`: the version suffix is noise in a
/// label.
pub open spec fn family_of(name: Seq<char>) -> Seq<char>
    decreases name.len(),
{
    if name.len() > 0 && (is_digit(name.last()) || name.last() == '.') {
        family_of(name.drop_last())
    } else {
        name
    }
}

pub fn family<'a>(name: &'a str) -> (r: &'a str)
    ensures
        r@ == family_of(name@),
{
    let v = chars_of(name);
    let mut n: usize = v.len();
    assert(name@.take(n as int) =~= name@);
    while n > 0 && (digit(v[n - 1]) || v[n - 1] == '.')
        invariant
            v@ == name@,
            n <= name@.len(),
            family_of(name@.take(n as int)) == family_of(name@),
        ensures
            n <= name@.len(),
            family_of(name@.take(n as int)) == family_of(name@),
            n > 0 ==> !(is_digit(name@[n - 1]) || name@[n - 1] == '.'),
        decreases n,
    {
        assert(name@.take(n as int).drop_last() =~= name@.take(n - 1));
        n -= 1;
    }
    name.substring_char(0, n)
}

fn table(
    family: &'static str,
    valued: &'static [&'static str],
    program: &'static [&'static str],
    inline: &'static [&'static str],
    subcommands: &'static [&'static str],
) -> (r: Option<Interpreter>)
    ensures
        r matches Some(i) && i@ == grammar(
            family@,
            literals(valued@),
            literals(program@),
            literals(inline@),
            literals(subcommands@),
        ),
{
    Some(Interpreter { family, valued, program, inline, subcommands })
}

/// The interpreter of that name, whatever its version.
pub fn interpreter(name: &str) -> (r: Option<Interpreter>)
    ensures
        match r {
            Some(i) => known(family_of(name@)) =~~= Some(i@),
            None => known(family_of(name@)) is None,
        },
{
    let family = family(name);
    if same(family, "python") {
        table("python", &["-W", "-X", "-Q", "--check-hash-based-pycs"], &["-m"], &["-c"], &[])
    } else if same(family, "pypy") {
        table("pypy", &["-W", "-X"], &["-m"], &["-c"], &[])
    } else if same(family, "node") {
        table("node", &["-r", "--require", "--import", "--loader", "--conditions", "-C"], &[], &["-e", "--eval", "-p", "--print"], &[])
    } else if same(family, "bun") {
        table("bun", &["-r", "--preload", "--cwd"], &[], &["-e", "--eval", "-p", "--print"], &["run", "test", "x"])
    } else if same(family, "deno") {
        table("deno", &["--config", "-c", "--import-map"], &[], &["eval"], &["run", "test", "serve", "task"])
    } else if same(family, "ruby") {
        table("ruby", &["-r", "-I", "-C"], &[], &["-e"], &[])
    } else if same(family, "perl") {
        table("perl", &["-I", "-M"], &[], &["-e", "-E"], &[])
    } else if same(family, "java") {
        table("java", &["-cp", "-classpath", "--class-path", "-p", "--module-path"], &["-jar", "-m", "--module"], &[], &[])
    } else if same(family, "julia") {
        table("julia", &["--project", "-t", "--threads", "-L", "--load"], &[], &["-e", "--eval", "-E", "--print"], &[])
    } else if same(family, "Rscript") {
        table("Rscript", &[], &[], &["-e"], &[])
    } else if same(family, "lua") {
        table("lua", &["-l"], &[], &["-e"], &[])
    } else if same(family, "bash") {
        table("bash", &["-o", "-O", "--rcfile", "--init-file"], &[], &["-c"], &[])
    } else if same(family, "sh") {
        table("sh", &["-o"], &[], &["-c"], &[])
    } else if same(family, "zsh") {
        table("zsh", &["-o"], &[], &["-c"], &[])
    } else if same(family, "fish") {
        table("fish", &["-C", "--init-command"], &[], &["-c", "--command"], &[])
    } else {
        None
    }
}

/// What follows a path's last slash.
pub fn basename<'a>(path: &'a str) -> (r: &'a str)
    ensures
        r@ == tail(path@, '/'),
{
    after_last(path, '/')
}

/// What a program on a command line is called: a path's file name, a dotted
/// module or class name as it is. A package run by path
/// (`…/compile_worker/__main__.py`) is named by its directory, the way
/// `python -m` would have named it.
pub open spec fn called(program: Seq<char>) -> Seq<char> {
    let path = names(program);
    let package = file_name(path.drop_last());
    if file_name(path) == Some("__main__.py"@) && package is Some {
        package->0
    } else {
        tail(program, '/')
    }
}

pub fn program_name(program: &str) -> (r: String)
    ensures
        r@ == called(program@),
{
    let path = names_of(program);
    let n: usize = path.len();
    proof {
        reveal_strlit("__main__.py");
        reveal_strlit(".");
        reveal_strlit("..");
        assert("__main__.py"@.len() == 11);
        if n > 0 {
            assert(texts(path@).last() == path@.last()@);
        }
        if n > 1 {
            assert(texts(path@).drop_last().last() == path@[n - 2]@);
        }
    }
    if n > 1 && same(path[n - 1].as_str(), "__main__.py") && is_proper(path[n - 2].as_str()) {
        return path[n - 2].as_str().to_owned();
    }
    basename(program).to_owned()
}

/// The program among an interpreter's arguments; `leading` while no word has
/// been met that could pick a subcommand.
pub open spec fn target_of(g: Grammar, args: Seq<Seq<char>>, leading: bool) -> Option<Seq<char>>
    decreases args.len(),
{
    if args.len() == 0 {
        None
    } else {
        let arg = args[0];
        let rest = args.skip(1);
        if g.inline.contains(arg) {
            None
        } else if g.program.contains(arg) || (!g.valued.contains(arg) && arg == "--"@) {
            if rest.len() > 0 {
                Some(called(rest[0]))
            } else {
                None
            }
        } else if g.valued.contains(arg) {
            if rest.len() > 0 {
                target_of(g, rest.skip(1), leading)
            } else {
                None
            }
        } else if arg.len() > 0 && arg[0] == '-' {
            target_of(g, rest, leading)
        } else if leading && g.subcommands.contains(arg) {
            target_of(g, rest, false)
        } else {
            Some(called(arg))
        }
    }
}

impl Interpreter {
    /// Whether `name` is this interpreter, whatever its version.
    pub fn is(&self, name: &str) -> (r: bool)
        ensures
            r == (family_of(name@) == self@.family),
    {
        same(family(name), self.family)
    }

    /// The program in the interpreter's arguments: a script's file name, a
    /// module's dotted name, a jar. `None` for code passed inline, or for an
    /// interactive interpreter.
    pub fn target(&self, args: &[String]) -> (r: Option<String>)
        ensures
            match r {
                Some(name) => target_of(self@, texts(args@), true) == Some(name@),
                None => target_of(self@, texts(args@), true) is None,
            },
    {
        let mut i: usize = 0;
        let mut leading: bool = true;
        assert(texts(args@).skip(0) =~= texts(args@));
        while i < args.len()
            invariant
                i <= args@.len(),
                target_of(self@, texts(args@).skip(i as int), leading) == target_of(
                    self@,
                    texts(args@),
                    true,
                ),
            decreases args@.len() - i,
        {
            let arg = args[i].as_str();
            proof {
                let at = texts(args@).skip(i as int);
                assert(at[0] == arg@);
                assert(at.skip(1) =~= texts(args@).skip(i + 1));
                if i + 1 < args@.len() {
                    assert(at.skip(1)[0] == args@[i + 1]@);
                    assert(at.skip(1).skip(1) =~= texts(args@).skip(i + 2));
                }
            }
            if listed(self.inline, arg) {
                return None;
            }
            if listed(self.program, arg) || (!listed(self.valued, arg) && same(arg, "--")) {
                return if i + 1 < args.len() {
                    Some(program_name(args[i + 1].as_str()))
                } else {
                    None
                };
            }
            if listed(self.valued, arg) {
                if i + 1 == args.len() {
                    return None;
                }
                i += 2;
            } else if arg.unicode_len() > 0 && arg.get_char(0) == '-' {
                i += 1;
            } else if leading && listed(self.subcommands, arg) {
                leading = false;
                i += 1;
            } else {
                return Some(program_name(arg));
            }
        }
        None
    }
}

/// Whether a directory is a virtualenv, by its name.
pub open spec fn is_venv(name: Seq<char>) -> bool {
    name == ".venv"@ || name == "venv"@
}

/// The innermost virtualenv among a path's names.
pub open spec fn venv_at(path: Seq<Seq<char>>) -> Option<int>
    decreases path.len(),
{
    if path.len() == 0 {
        None
    } else if is_venv(path.last()) {
        Some(path.len() - 1)
    } else {
        venv_at(path.drop_last())
    }
}

/// The directory that holds the virtualenv of the interpreter at `argv0`.
pub open spec fn venv_project(argv0: Seq<char>, cwd: Option<Seq<char>>) -> Option<Seq<char>> {
    let path = names(
        match cwd {
            Some(cwd) => seen_from(cwd, argv0),
            None => argv0,
        },
    );
    match venv_at(path) {
        Some(at) => file_name(path.take(at)),
        None => None,
    }
}

/// Whether a path lies in a pseudo-filesystem.
pub open spec fn is_virtual(path: Seq<char>) -> bool {
    let dir = names(path);
    rooted(path) && dir.len() > 0 && (dir[0] == "proc"@ || dir[0] == "sys"@ || dir[0] == "dev"@)
}

/// The project a process belongs to. An interpreter inside a virtualenv was
/// made for the project the virtualenv sits in, wherever it was started from.
/// Failing that, the directory it was started in, unless that is the home
/// directory, the root, or a pseudo-filesystem, which say nothing.
pub open spec fn project_of(
    argv0: Option<Seq<char>>,
    cwd: Option<Seq<char>>,
    home: Option<Seq<char>>,
) -> Option<Seq<char>> {
    let own = match argv0 {
        Some(argv0) => if argv0.contains('/') {
            venv_project(argv0, cwd)
        } else {
            None
        },
        None => None,
    };
    if own is Some {
        own
    } else {
        match cwd {
            Some(cwd) => {
                let says_nothing = is_virtual(cwd) || (rooted(cwd) && names(cwd).len() == 0) || (
                home matches Some(home) && same_path(cwd, home));
                if says_nothing {
                    None
                } else {
                    file_name(names(cwd))
                }
            },
            None => None,
        }
    }
}

fn find_venv_project(argv0: &str, cwd: Option<&str>) -> (r: Option<String>)
    ensures
        match r {
            Some(name) => venv_project(argv0@, opt_str(cwd)) == Some(name@),
            None => venv_project(argv0@, opt_str(cwd)) is None,
        },
{
    let path = match cwd {
        Some(cwd) => names_of(join_path(cwd, argv0).as_str()),
        None => names_of(argv0),
    };
    let ghost all = texts(path@);
    let mut n: usize = path.len();
    assert(all.take(n as int) =~= all);
    while n > 0
        invariant
            all == texts(path@),
            n <= path@.len(),
            all == names(
                match opt_str(cwd) {
                    Some(cwd) => seen_from(cwd, argv0@),
                    None => argv0@,
                },
            ),
            venv_at(all.take(n as int)) == venv_at(all),
        decreases n,
    {
        proof {
            assert(all.take(n as int).last() == path@[n - 1]@);
            assert(all.take(n as int).drop_last() =~= all.take(n - 1));
        }
        let name = path[n - 1].as_str();
        if same(name, ".venv") || same(name, "venv") {
            assert(venv_at(all) == Some(n - 1));
            if n > 1 {
                assert(all.take(n - 1).last() == path@[n - 2]@);
                if is_proper(path[n - 2].as_str()) {
                    return Some(path[n - 2].as_str().to_owned());
                }
            }
            return None;
        }
        n -= 1;
    }
    None
}

pub fn project(argv0: Option<&str>, cwd: Option<&str>, home: Option<&str>) -> (r: Option<String>)
    ensures
        match r {
            Some(name) => project_of(opt_str(argv0), opt_str(cwd), opt_str(home)) == Some(name@),
            None => project_of(opt_str(argv0), opt_str(cwd), opt_str(home)) is None,
        },
{
    match argv0 {
        Some(argv0) => {
            if find(argv0, '/').is_some() {
                proof {
                    argv0@.index_of_first_ensures('/');
                }
                let own = find_venv_project(argv0, cwd);
                if own.is_some() {
                    return own;
                }
            }
        },
        None => {},
    }
    match cwd {
        Some(cwd) => {
            let root = is_rooted(cwd);
            let dir = names_of(cwd);
            let n: usize = dir.len();
            if root {
                if n == 0 {
                    return None;
                }
                assert(texts(dir@)[0] == dir@[0]@);
                let top = dir[0].as_str();
                if same(top, "proc") || same(top, "sys") || same(top, "dev") {
                    return None;
                }
            }
            match home {
                Some(home) => {
                    if is_same_path(cwd, home) {
                        return None;
                    }
                },
                None => {},
            }
            if n > 0 && is_proper(dir[n - 1].as_str()) {
                assert(texts(dir@).last() == dir@[n - 1]@);
                Some(dir[n - 1].as_str().to_owned())
            } else {
                assert(n > 0 ==> texts(dir@).last() == dir@[n - 1]@);
                None
            }
        },
        None => None,
    }
}

/// The value of a hexadecimal digit.
pub open spec fn hex(c: char) -> Option<int> {
    if '0' <= c <= '9' {
        Some(c as int - '0' as int)
    } else if 'a' <= c <= 'f' {
        Some(c as int - 'a' as int + 10)
    } else if 'A' <= c <= 'F' {
        Some(c as int - 'A' as int + 10)
    } else {
        None
    }
}

fn hex_digit(c: char) -> (r: Option<u8>)
    ensures
        match r {
            Some(n) => hex(c) == Some(n as int) && n < 16,
            None => hex(c) is None,
        },
{
    if '0' <= c && c <= '9' {
        Some((c as u32 - '0' as u32) as u8)
    } else if 'a' <= c && c <= 'f' {
        Some((c as u32 - 'a' as u32) as u8 + 10)
    } else if 'A' <= c && c <= 'F' {
        Some((c as u32 - 'A' as u32) as u8 + 10)
    } else {
        None
    }
}

/// The ASCII character that two characters give the number of, in hexadecimal;
/// the first may be a sign.
pub open spec fn escaped(a: char, b: char) -> Option<char> {
    match (if a == '+' {
        Some(0)
    } else {
        hex(a)
    }, hex(b)) {
        (Some(high), Some(low)) => if high * 16 + low < 128 {
            Some((high * 16 + low) as char)
        } else {
            None
        },
        _ => None,
    }
}

/// systemd's unit-name escaping: `\x2d` stands for `-`. What is no escape is
/// left as it is.
pub open spec fn unescaped(s: Seq<char>) -> Seq<char>
    decreases s.len(),
{
    if s.len() < 2 {
        s
    } else if s[0] == '\\' && s[1] == 'x' {
        if s.len() >= 4 && escaped(s[2], s[3]) is Some {
            seq![escaped(s[2], s[3])->0] + unescaped(s.skip(4))
        } else {
            seq!['\\', 'x'] + unescaped(s.skip(2))
        }
    } else {
        seq![s[0]] + unescaped(s.skip(1))
    }
}

pub fn unescape(name: &str) -> (r: String)
    ensures
        r@ == unescaped(name@),
{
    let v = chars_of(name);
    let mut out = String::new();
    let mut i: usize = 0;
    assert(name@.skip(0) =~= name@);
    while i < v.len()
        invariant
            v@ == name@,
            i <= name@.len(),
            out@ + unescaped(name@.skip(i as int)) == unescaped(name@),
        decreases name@.len() - i,
    {
        let ghost at = name@.skip(i as int);
        let ghost had = out@;
        let left: usize = v.len() - i;
        if left < 2 {
            out.push(v[i]);
            proof {
                assert(at =~= seq![name@[i as int]]);
                assert(name@.skip(i + 1) =~= Seq::empty());
                assert(out@ + unescaped(name@.skip(i + 1)) =~= had + unescaped(at));
            }
            i += 1;
        } else if v[i] == '\\' && v[i + 1] == 'x' {
            let mut code: Option<char> = None;
            if left >= 4 {
                let high = if v[i + 2] == '+' {
                    Some(0)
                } else {
                    hex_digit(v[i + 2])
                };
                match (high, hex_digit(v[i + 3])) {
                    (Some(high), Some(low)) => {
                        let n: u8 = high * 16 + low;
                        if n < 128 {
                            code = Some(n as char);
                        }
                    },
                    _ => {},
                }
            }
            match code {
                Some(c) => {
                    out.push(c);
                    proof {
                        assert(at.skip(4) =~= name@.skip(i + 4));
                        assert(out@ + unescaped(name@.skip(i + 4)) =~= had + unescaped(at));
                    }
                    i += 4;
                },
                None => {
                    out.push('\\');
                    out.push('x');
                    proof {
                        assert(at.skip(2) =~= name@.skip(i + 2));
                        assert(out@ + unescaped(name@.skip(i + 2)) =~= had + unescaped(at));
                    }
                    i += 2;
                },
            }
        } else {
            out.push(v[i]);
            proof {
                assert(at.skip(1) =~= name@.skip(i + 1));
                assert(out@ + unescaped(name@.skip(i + 1)) =~= had + unescaped(at));
            }
            i += 1;
        }
    }
    assert(name@.skip(i as int) =~= Seq::empty());
    assert(out@ + unescaped(name@.skip(i as int)) =~= out@);
    out
}

/// A name that holds no backslash is not changed by unescaping.
pub proof fn law_plain_names_are_kept(name: Seq<char>)
    requires
        !name.contains('\\'),
    ensures
        unescaped(name) == name,
    decreases name.len(),
{
    if name.len() >= 2 {
        assert(name.contains(name[0]));
        assert(!name.skip(1).contains('\\')) by {
            if name.skip(1).contains('\\') {
                let i = choose|i: int| 0 <= i < name.skip(1).len() && name.skip(1)[i] == '\\';
                assert(name[i + 1] == '\\');
            }
        }
        law_plain_names_are_kept(name.skip(1));
        assert(seq![name[0]] + name.skip(1) =~= name);
    }
}

/// A reverse-DNS application id is named by what follows its domain.
pub open spec fn application_of(id: Seq<char>) -> Option<Seq<char>> {
    let id = unescaped(id);
    let name = match cut(id, '.') {
        Some((_, rest)) => match cut(rest, '.') {
            Some((_, name)) => name,
            None => id,
        },
        None => id,
    };
    if name.len() == 0 {
        None
    } else {
        Some(name)
    }
}

pub fn application(id: &str) -> (r: Option<String>)
    ensures
        match r {
            Some(name) => application_of(id@) == Some(name@),
            None => application_of(id@) is None,
        },
{
    let id = unescape(id);
    let name = match split_once(id.as_str(), '.') {
        Some((_, rest)) => match split_once(rest, '.') {
            Some((_, name)) => name,
            None => id.as_str(),
        },
        None => id.as_str(),
    };
    if name.is_empty() {
        None
    } else {
        Some(name.to_owned())
    }
}

/// Whether `part` is `prefix` and then a number.
pub open spec fn numbered(part: Seq<char>, prefix: char) -> bool {
    part.len() > 1 && part[0] == prefix && forall|i: int|
        1 <= i < part.len() ==> is_digit(#[trigger] part[i])
}

fn is_numbered(part: &str, prefix: char) -> (r: bool)
    ensures
        r == numbered(part@, prefix),
{
    let v = chars_of(part);
    if v.len() < 2 || v[0] != prefix {
        return false;
    }
    let mut i: usize = 1;
    while i < v.len()
        invariant
            v@ == part@,
            1 <= i <= v@.len(),
            forall|j: int| 1 <= j < i ==> is_digit(#[trigger] v@[j]),
        decreases v@.len() - i,
    {
        if !digit(v[i]) {
            return false;
        }
        i += 1;
    }
    true
}

/// `run-u<n>` or `run-p<pid>-i<n>`: systemd-run's name for a unit it was not
/// given one for.
pub open spec fn generated(stem: Seq<char>) -> bool {
    match unprefixed(stem, "run-"@) {
        Some(rest) => match cut(rest, '-') {
            Some((pid, invocation)) => numbered(pid, 'p') && numbered(invocation, 'i'),
            None => numbered(rest, 'u'),
        },
        None => false,
    }
}

pub fn generated_run_unit(stem: &str) -> (r: bool)
    ensures
        r == generated(stem@),
{
    match strip_prefix(stem, "run-") {
        Some(rest) => match split_once(rest, '-') {
            Some((pid, invocation)) => is_numbered(pid, 'p') && is_numbered(invocation, 'i'),
            None => is_numbered(rest, 'u'),
        },
        None => false,
    }
}

/// The path in the first line of a cgroup listing that names the unified
/// hierarchy.
pub open spec fn unified(lines: Seq<Seq<char>>) -> Option<Seq<char>>
    decreases lines.len(),
{
    if lines.len() == 0 {
        None
    } else if "0::"@.is_prefix_of(lines[0]) {
        Some(lines[0].skip("0::"@.len() as int))
    } else {
        unified(lines.skip(1))
    }
}

/// Whether a part of a scope's name is a launcher's random suffix: a pid, a
/// hex word with a digit in it.
pub open spec fn is_random(id: Seq<char>) -> bool {
    &&& forall|i: int| 0 <= i < id.len() ==> hex(#[trigger] id[i]) is Some
    &&& exists|i: int| 0 <= i < id.len() && is_digit(#[trigger] id[i])
}

fn random_suffix(id: &str) -> (r: bool)
    ensures
        r == is_random(id@),
{
    let v = chars_of(id);
    let mut any: bool = false;
    let mut i: usize = 0;
    while i < v.len()
        invariant
            v@ == id@,
            i <= v@.len(),
            forall|j: int| 0 <= j < i ==> hex(#[trigger] v@[j]) is Some,
            any == exists|j: int| 0 <= j < i && is_digit(#[trigger] v@[j]),
        decreases v@.len() - i,
    {
        if hex_digit(v[i]).is_none() {
            assert(hex(id@[i as int]) is None);
            return false;
        }
        if digit(v[i]) {
            any = true;
        }
        i += 1;
    }
    any
}

/// Programs that only exist to start another one.
pub open spec fn is_wrapper(program: Seq<char>) -> bool {
    ||| program == "env"@
    ||| program == "sh"@
    ||| program == "bash"@
    ||| program == "exec"@
    ||| program == "systemd-run"@
}

/// What an `app-…` unit is called, given what follows `app-` and precedes an
/// instance: the application id, between an optional launcher and an optional
/// random suffix. A launcher that ran a wrapper says more than the wrapper
/// does, and a name that does not follow the convention is kept whole.
pub open spec fn app_of(app: Seq<char>) -> Option<Seq<char>> {
    let all = pieces(app, '-');
    let parts = if all.len() > 1 && is_random(all.last()) {
        all.drop_last()
    } else {
        all
    };
    if parts.len() == 1 {
        application_of(parts[0])
    } else if parts.len() == 2 {
        if is_wrapper(unescaped(parts[1])) {
            Some(unescaped(parts[0]))
        } else {
            application_of(parts[1])
        }
    } else {
        application_of(app)
    }
}

fn app_name(app: &str) -> (r: Option<String>)
    ensures
        match r {
            Some(name) => app_of(app@) == Some(name@),
            None => app_of(app@) is None,
        },
{
    let mut parts = split(app, '-');
    let ghost all = texts(parts@);
    let n: usize = parts.len();
    assert(all.last() == parts@[n - 1]@);
    if n > 1 && random_suffix(parts[n - 1].as_str()) {
        let _ = parts.pop();
        assert(texts(parts@) =~= all.drop_last());
    }
    if parts.len() == 1 {
        assert(texts(parts@)[0] == parts@[0]@);
        application(parts[0].as_str())
    } else if parts.len() == 2 {
        assert(texts(parts@)[0] == parts@[0]@);
        assert(texts(parts@)[1] == parts@[1]@);
        let id = unescape(parts[1].as_str());
        let id = id.as_str();
        if same(id, "env") || same(id, "sh") || same(id, "bash") || same(id, "exec") || same(
            id,
            "systemd-run",
        ) {
            Some(unescape(parts[0].as_str()))
        } else {
            application(parts[1].as_str())
        }
    } else {
        application(app)
    }
}

/// What the unit `stem`, a service or a scope, is called. `None` for the units
/// every process of a login has in common, and for generated names.
pub open spec fn unit_name(stem: Seq<char>) -> Option<Seq<char>> {
    if "session-"@.is_prefix_of(stem) || "user@"@.is_prefix_of(stem) || stem == "init"@
        || generated(stem) {
        None
    } else if "libpod-"@.is_prefix_of(stem) {
        Some("podman"@)
    } else if "docker-"@.is_prefix_of(stem) {
        Some("docker"@)
    } else if bus_service(stem) is Some {
        application_of(head(bus_service(stem)->0, '@'))
    } else {
        match unprefixed(stem, "app-"@) {
            Some(app) => app_of(head(app, '@')),
            None => Some(unescaped(head(stem, '@'))),
        }
    }
}

/// The service in the name of a bus-activated unit,
/// `dbus-:1.2-org.freedesktop.portal.Desktop@0`: the bus's connection name,
/// then the service's.
pub open spec fn bus_service(stem: Seq<char>) -> Option<Seq<char>> {
    match unprefixed(stem, "dbus-:"@) {
        Some(rest) => match cut(rest, '-') {
            Some((_, service)) => Some(service),
            None => None,
        },
        None => None,
    }
}

/// The systemd unit a process runs under, as a person would name it.
pub open spec fn unit_of(cgroup: Seq<char>) -> Option<Seq<char>> {
    match unified(text_lines(cgroup)) {
        Some(path) => match rcut(tail(trimmed(path), '/'), '.') {
            Some((stem, kind)) => if kind == "service"@ || kind == "scope"@ {
                unit_name(stem)
            } else {
                None
            },
            None => None,
        },
        None => None,
    }
}

fn name_of_unit(stem: &str) -> (r: Option<String>)
    ensures
        match r {
            Some(name) => unit_name(stem@) == Some(name@),
            None => unit_name(stem@) is None,
        },
{
    if starts_with(stem, "session-") || starts_with(stem, "user@") || same(stem, "init")
        || generated_run_unit(stem) {
        return None;
    }
    if starts_with(stem, "libpod-") {
        return Some("podman".to_owned());
    }
    if starts_with(stem, "docker-") {
        return Some("docker".to_owned());
    }
    match strip_prefix(stem, "dbus-:") {
        Some(rest) => match split_once(rest, '-') {
            Some((_, service)) => {
                return application(up_to(service, '@'));
            },
            None => {},
        },
        None => {},
    }
    match strip_prefix(stem, "app-") {
        Some(app) => app_name(up_to(app, '@')),
        None => Some(unescape(up_to(stem, '@'))),
    }
}

/// The systemd unit a process runs under, as a person would name it:
/// `mlqd.service` is `mlqd`, `app-orca-18094.scope` is `orca`,
/// `app-flatpak-net.nokyan.Resources-2656401153.scope` is `Resources`. `None`
/// for the units every process of a login has in common.
pub fn unit(cgroup: &str) -> (r: Option<String>)
    ensures
        match r {
            Some(name) => unit_of(cgroup@) == Some(name@),
            None => unit_of(cgroup@) is None,
        },
{
    let all = lines(cgroup);
    let ghost whole = texts(all@);
    let mut i: usize = 0;
    assert(whole.skip(0) =~= whole);
    while i < all.len()
        invariant
            i <= all@.len(),
            whole == texts(all@),
            whole == text_lines(cgroup@),
            unified(whole.skip(i as int)) == unified(whole),
        decreases all@.len() - i,
    {
        proof {
            assert(whole.skip(i as int)[0] == all@[i as int]@);
            assert(whole.skip(i as int).skip(1) =~= whole.skip(i + 1));
        }
        match strip_prefix(all[i].as_str(), "0::") {
            Some(path) => {
                return match rsplit_once(after_last(trim(path), '/'), '.') {
                    Some((stem, kind)) => if same(kind, "service") || same(kind, "scope") {
                        name_of_unit(stem)
                    } else {
                        None
                    },
                    None => None,
                };
            },
            None => {},
        }
        i += 1;
    }
    None
}

/// What a process is, for the memory popup.
#[derive(Debug, Clone)]
pub struct Origin {
    /// What the process runs: the script or module an interpreter was handed,
    /// otherwise the executable's own name.
    pub name: String,
    /// Where it came from, most specific first: the interpreter when `name` is
    /// a script, the project, the launching unit. Only what `name` does not
    /// already say.
    pub context: Vec<String>,
}

/// Kernel limit on `comm`, in bytes.
pub const COMM_MAX: usize = 15;

/// `comm` without the replacement characters a name cut inside a character
/// ends in.
pub open spec fn stem_of(comm: Seq<char>) -> Seq<char>
    decreases comm.len(),
{
    if comm.len() > 0 && comm.last() == '\u{FFFD}' {
        stem_of(comm.drop_last())
    } else {
        comm
    }
}

fn stem<'a>(comm: &'a str) -> (r: &'a str)
    ensures
        r@ == stem_of(comm@),
{
    let v = chars_of(comm);
    let mut n: usize = v.len();
    assert(comm@.take(n as int) =~= comm@);
    while n > 0 && v[n - 1] == '\u{FFFD}'
        invariant
            v@ == comm@,
            n <= comm@.len(),
            stem_of(comm@.take(n as int)) == stem_of(comm@),
        ensures
            n <= comm@.len(),
            stem_of(comm@.take(n as int)) == stem_of(comm@),
            n > 0 ==> comm@[n - 1] != '\u{FFFD}',
        decreases n,
    {
        assert(comm@.take(n as int).drop_last() =~= comm@.take(n - 1));
        n -= 1;
    }
    comm.substring_char(0, n)
}

/// Whether `comm` is `full` cut at the kernel's limit.
pub open spec fn cut_short(comm: Seq<char>, full: Seq<char>) -> bool {
    utf8_len(comm) >= COMM_MAX && stem_of(comm).is_prefix_of(full)
}

fn is_cut_short(comm: &str, full: &str) -> (r: bool)
    ensures
        r == cut_short(comm@, full@),
{
    fills(comm, COMM_MAX) && starts_with(full, stem(comm))
}

/// The file name a process was started by, or nothing.
pub open spec fn started_by(args: Seq<Seq<char>>) -> Seq<char> {
    if args.len() > 0 {
        tail(args[0], '/')
    } else {
        Seq::empty()
    }
}

/// The executable's own name: `comm`, completed from the command line where it
/// is missing or cut short.
pub open spec fn own_name(comm: Seq<char>, args: Seq<Seq<char>>) -> Seq<char> {
    let argv0 = started_by(args);
    if comm.len() == 0 || cut_short(comm, argv0) {
        argv0
    } else {
        comm
    }
}

/// The interpreter that runs a process. A `#!` script has its own name as
/// `comm` and the interpreter as its first argument, so either tells.
pub open spec fn run_by(comm: Seq<char>, args: Seq<Seq<char>>) -> Option<Grammar> {
    let by = known(family_of(started_by(args)));
    if by is Some {
        by
    } else {
        known(family_of(comm))
    }
}

/// What a process runs. One that retitled itself knows its name better than
/// its command line does; a `#!` script's `comm` is only its name cut short.
pub open spec fn name_of(comm: Seq<char>, args: Seq<Seq<char>>) -> Seq<char> {
    let own = own_name(comm, args);
    match run_by(comm, args) {
        Some(by) => {
            let rest = if args.len() > 0 {
                args.skip(1)
            } else {
                Seq::empty()
            };
            match target_of(by, rest, true) {
                Some(target) => if family_of(comm) == by.family || cut_short(comm, target) {
                    target
                } else {
                    own
                },
                None => own,
            }
        },
        None => own,
    }
}

/// One text, or none.
pub open spec fn one(entry: Option<Seq<char>>) -> Seq<Seq<char>> {
    match entry {
        Some(entry) => seq![entry],
        None => Seq::empty(),
    }
}

/// The interpreter of a process: it only adds something where the name is not
/// its own.
pub open spec fn interpreter_said(comm: Seq<char>, args: Seq<Seq<char>>) -> Option<Seq<char>> {
    match run_by(comm, args) {
        Some(by) => if by.family == family_of(name_of(comm, args)) {
            None
        } else {
            Some(by.family)
        },
        None => None,
    }
}

/// Everything that says where a process came from: its interpreter, its
/// project, its unit.
pub open spec fn sources(
    comm: Seq<char>,
    args: Seq<Seq<char>>,
    cwd: Option<Seq<char>>,
    cgroup: Seq<char>,
    home: Option<Seq<char>>,
) -> Seq<Seq<char>> {
    let argv0 = if args.len() > 0 {
        Some(args[0])
    } else {
        None
    };
    one(interpreter_said(comm, args)) + one(project_of(argv0, cwd, home)) + one(unit_of(cgroup))
}

/// The entries that neither the name nor an earlier entry says, case apart.
pub open spec fn new_entries(name: Seq<char>, entries: Seq<Seq<char>>) -> Seq<Seq<char>>
    decreases entries.len(),
{
    if entries.len() == 0 {
        Seq::empty()
    } else {
        let before = new_entries(name, entries.drop_last());
        let key = lowercase(entries.last());
        if key == lowercase(name) || exists|i: int|
            0 <= i < entries.len() - 1 && lowercase(#[trigger] entries[i]) == key {
            before
        } else {
            before.push(entries.last())
        }
    }
}

fn retain_new(name: &str, entries: &Vec<String>) -> (r: Vec<String>)
    ensures
        texts(r@) == new_entries(name@, texts(entries@)),
{
    let ghost all = texts(entries@);
    let own = to_lowercase(name);
    let mut seen: Vec<String> = Vec::new();
    let mut out: Vec<String> = Vec::new();
    let mut i: usize = 0;
    assert(texts(out@) =~= Seq::empty());
    while i < entries.len()
        invariant
            i <= entries@.len(),
            all == texts(entries@),
            own@ == lowercase(name@),
            seen@.len() == i,
            forall|j: int| 0 <= j < i ==> (#[trigger] seen@[j])@ == lowercase(all[j]),
            texts(out@) == new_entries(name@, all.take(i as int)),
        decreases entries@.len() - i,
    {
        let key = to_lowercase(entries[i].as_str());
        let mut new: bool = !same(key.as_str(), own.as_str());
        let mut k: usize = 0;
        while k < seen.len()
            invariant
                k <= seen@.len(),
                i < entries@.len(),
                all == texts(entries@),
                seen@.len() == i,
                forall|j: int| 0 <= j < i ==> (#[trigger] seen@[j])@ == lowercase(all[j]),
                own@ == lowercase(name@),
                key@ == lowercase(entries@[i as int]@),
                new == (key@ != own@ && forall|j: int|
                    0 <= j < k ==> lowercase(#[trigger] all[j]) != key@),
            decreases seen@.len() - k,
        {
            if same(seen[k].as_str(), key.as_str()) {
                assert(lowercase(all[k as int]) == key@);
                new = false;
            }
            k += 1;
        }
        proof {
            let now = all.take(i + 1);
            assert(now.drop_last() =~= all.take(i as int));
            assert(now.last() == entries@[i as int]@);
            if !new && key@ != own@ {
                let j = choose|j: int| 0 <= j < i && lowercase(#[trigger] all[j]) == key@;
                assert(lowercase(now[j]) == key@);
            }
            if new {
                assert forall|j: int| 0 <= j < now.len() - 1 implies lowercase(#[trigger] now[j])
                    != key@ by {
                    assert(now[j] == all[j]);
                }
            }
        }
        seen.push(key);
        if new {
            let ghost had = out@;
            out.push(entries[i].as_str().to_owned());
            assert(texts(out@) =~= texts(had).push(entries@[i as int]@));
        }
        i += 1;
    }
    assert(all.take(i as int) =~= all);
    out
}

/// The file name a process was started by.
fn starter<'a>(args: &'a [String]) -> (r: &'a str)
    ensures
        r@ == started_by(texts(args@)),
{
    if args.len() > 0 {
        assert(texts(args@)[0] == args@[0]@);
        basename(args[0].as_str())
    } else {
        proof {
            reveal_strlit("");
            assert(""@ =~= Seq::empty());
        }
        ""
    }
}

fn runner(comm: &str, argv0: &str) -> (r: Option<Interpreter>)
    ensures
        match r {
            Some(by) => known(family_of(argv0@)) == Some(by@) || (known(family_of(argv0@)) is None
                && known(family_of(comm@)) == Some(by@)),
            None => known(family_of(argv0@)) is None && known(family_of(comm@)) is None,
        },
{
    match interpreter(argv0) {
        Some(by) => Some(by),
        None => interpreter(comm),
    }
}

/// What a process runs, and the interpreter that runs it, where that is told.
fn named(comm: &str, args: &[String]) -> (r: (String, Option<&'static str>))
    ensures
        r.0@ == name_of(comm@, texts(args@)),
        opt_str(r.1) == interpreter_said(comm@, texts(args@)),
{
    let ghost all = texts(args@);
    let argv0 = starter(args);
    let own: &str = if comm.is_empty() || is_cut_short(comm, argv0) {
        argv0
    } else {
        comm
    };
    assert(own@ == own_name(comm@, all));
    match runner(comm, argv0) {
        Some(by) => {
            assert(run_by(comm@, all) == Some(by@));
            let rest: Vec<String> = tail_of(args);
            let target = by.target(rest.as_slice());
            let name = match target {
                Some(target) => if by.is(comm) || is_cut_short(comm, target.as_str()) {
                    target
                } else {
                    own.to_owned()
                },
                None => own.to_owned(),
            };
            if same(family(name.as_str()), by.family) {
                (name, None)
            } else {
                (name, Some(by.family))
            }
        },
        None => (own.to_owned(), None),
    }
}

fn push_one(context: &mut Vec<String>, entry: Option<String>)
    ensures
        texts(final(context)@) == texts(old(context)@) + one(opt_text(entry)),
{
    let ghost had = context@;
    match entry {
        Some(entry) => {
            context.push(entry);
            assert(texts(context@) =~= texts(had) + one(Some(entry@)));
        },
        None => {
            assert(texts(context@) =~= texts(had) + one(None));
        },
    }
}

/// What a process is, from what the kernel says of it: its `comm`, its command
/// line, its working directory and its cgroup listing; and where home is.
pub fn describe(
    comm: &str,
    args: &[String],
    cwd: Option<&str>,
    cgroup: &str,
    home: Option<&str>,
) -> (r: Origin)
    ensures
        r.name@ == name_of(comm@, texts(args@)),
        texts(r.context@) == new_entries(
            r.name@,
            sources(comm@, texts(args@), opt_str(cwd), cgroup@, opt_str(home)),
        ),
{
    let (name, by) = named(comm, args);
    let first: Option<&str> = if args.len() > 0 {
        Some(args[0].as_str())
    } else {
        None
    };
    let by: Option<String> = match by {
        Some(family) => Some(family.to_owned()),
        None => None,
    };
    let mut context: Vec<String> = Vec::new();
    assert(texts(context@) =~= Seq::empty());
    push_one(&mut context, by);
    push_one(&mut context, project(first, cwd, home));
    push_one(&mut context, unit(cgroup));
    proof {
        let all = texts(args@);
        assert(args@.len() > 0 ==> all[0] == args@[0]@);
        assert(texts(context@) =~= sources(comm@, all, opt_str(cwd), cgroup@, opt_str(home)));
    }
    let context = retain_new(name.as_str(), &context);
    Origin { name, context }
}

/// All but the first of a list of strings.
fn tail_of(args: &[String]) -> (r: Vec<String>)
    ensures
        texts(r@) == if args@.len() > 0 {
            texts(args@).skip(1)
        } else {
            Seq::empty()
        },
{
    let mut out: Vec<String> = Vec::new();
    let mut i: usize = 1;
    while i < args.len()
        invariant
            1 <= i,
            args@.len() > 0 ==> i <= args@.len(),
            args@.len() == 0 ==> i == 1,
            out@.len() == i - 1,
            forall|j: int| 0 <= j < i - 1 ==> (#[trigger] out@[j])@ == args@[j + 1]@,
        decreases args@.len() - i,
    {
        out.push(args[i].as_str().to_owned());
        i += 1;
    }
    assert(args@.len() > 0 ==> texts(out@) =~= texts(args@).skip(1));
    assert(args@.len() == 0 ==> texts(out@) =~= Seq::empty());
    out
}

/// No entry of a context says the name again, and none says what an earlier
/// one said, whatever their case.
pub proof fn law_context_is_new(name: Seq<char>, entries: Seq<Seq<char>>)
    ensures
        forall|i: int|
            0 <= i < new_entries(name, entries).len() ==> lowercase(
                #[trigger] new_entries(name, entries)[i],
            ) != lowercase(name),
        forall|i: int, j: int|
            0 <= i < j < new_entries(name, entries).len() ==> lowercase(
                #[trigger] new_entries(name, entries)[i],
            ) != lowercase(#[trigger] new_entries(name, entries)[j]),
        forall|e: Seq<char>| #[trigger]
            new_entries(name, entries).contains(e) ==> entries.contains(e),
    decreases entries.len(),
{
    if entries.len() > 0 {
        let most = entries.drop_last();
        law_context_is_new(name, most);
        let kept = new_entries(name, entries);
        let before = new_entries(name, most);
        assert forall|e: Seq<char>| #[trigger] kept.contains(e) implies entries.contains(e) by {
            if before.contains(e) {
                assert(most.contains(e));
                let k = choose|k: int| 0 <= k < most.len() && most[k] == e;
                assert(entries[k] == e);
            } else {
                assert(e == entries.last());
                assert(entries[entries.len() - 1] == e);
            }
        }
        assert forall|i: int, j: int| 0 <= i < j < kept.len() implies lowercase(#[trigger] kept[i])
            != lowercase(#[trigger] kept[j]) by {
            assert(before.contains(before[i]));
            if j == before.len() {
                assert(most.contains(before[i]));
                let k = choose|k: int| 0 <= k < most.len() && most[k] == before[i];
                assert(lowercase(entries[k]) == lowercase(before[i]));
            }
        }
    }
}

/// A command line's bytes cut at every NUL, each argument as text, without the
/// empty ones at the end: the terminating NUL, and the padding a retitled
/// process leaves behind. An empty argument in the middle is still an argument.
pub open spec fn arguments(cmdline: Seq<u8>) -> Seq<Seq<char>> {
    unpadded(at_nul(cmdline).map_values(|arg: Seq<u8>| lossy(arg)))
}

pub open spec fn at_nul(bytes: Seq<u8>) -> Seq<Seq<u8>>
    decreases bytes.len(),
{
    if bytes.len() == 0 {
        seq![Seq::empty()]
    } else {
        let before = at_nul(bytes.drop_last());
        if bytes.last() == 0 {
            before.push(Seq::empty())
        } else {
            before.drop_last().push(before.last().push(bytes.last()))
        }
    }
}

pub open spec fn unpadded(args: Seq<Seq<char>>) -> Seq<Seq<char>>
    decreases args.len(),
{
    if args.len() > 0 && args.last().len() == 0 {
        unpadded(args.drop_last())
    } else {
        args
    }
}

pub fn split_arguments(cmdline: &[u8]) -> (r: Vec<String>)
    ensures
        texts(r@) == arguments(cmdline@),
{
    let ghost all = at_nul(cmdline@).map_values(|arg: Seq<u8>| lossy(arg));
    let mut out: Vec<String> = Vec::new();
    let mut arg: Vec<u8> = Vec::new();
    let ghost mut done: Seq<Seq<u8>> = Seq::empty();
    let mut i: usize = 0;
    assert(cmdline@.take(0) =~= Seq::<u8>::empty());
    assert(done.push(arg@) =~= seq![Seq::<u8>::empty()]);
    while i < cmdline.len()
        invariant
            i <= cmdline@.len(),
            done.push(arg@) == at_nul(cmdline@.take(i as int)),
            out@.len() == done.len(),
            forall|j: int| 0 <= j < done.len() ==> (#[trigger] out@[j])@ == lossy(done[j]),
        decreases cmdline@.len() - i,
    {
        proof {
            let before = cmdline@.take(i as int);
            let now = cmdline@.take(i + 1);
            assert(now.drop_last() =~= before);
            assert(now.last() == cmdline@[i as int]);
            assert(at_nul(before).drop_last() =~= done);
        }
        if cmdline[i] == 0 {
            out.push(from_utf8_lossy(&arg));
            proof {
                done = done.push(arg@);
            }
            arg = Vec::new();
        } else {
            arg.push(cmdline[i]);
        }
        i += 1;
    }
    assert(cmdline@.take(i as int) =~= cmdline@);
    out.push(from_utf8_lossy(&arg));
    assert(texts(out@) =~= all);
    while out.len() > 0 && out[out.len() - 1].as_str().is_empty()
        invariant
            unpadded(texts(out@)) == unpadded(all),
        ensures
            unpadded(texts(out@)) == unpadded(all),
            out@.len() > 0 ==> out@.last()@.len() > 0,
        decreases out@.len(),
    {
        let ghost had = texts(out@);
        let _ = out.pop();
        assert(texts(out@) =~= had.drop_last());
    }
    assert(out@.len() > 0 ==> texts(out@).last() == out@.last()@);
    out
}

/// A working directory that was removed under its process reads as
/// `… (deleted)`.
pub open spec fn existed(cwd: Seq<char>) -> Seq<char> {
    match unsuffixed(cwd, " (deleted)"@) {
        Some(dir) => dir,
        None => cwd,
    }
}

/// Identify the process `pid` from the contents of its `comm`, `cmdline` and
/// `cgroup` files and the target of its `cwd` link; what could not be read is
/// empty, or `None`. A process of no other name is listed by its pid.
pub fn identify(
    pid: u32,
    comm: &Vec<u8>,
    cmdline: &[u8],
    cwd: Option<&str>,
    cgroup: &str,
    home: Option<&str>,
) -> (r: Origin)
    ensures
        ({
            let comm = trimmed_end(lossy(comm@));
            let args = arguments(cmdline@);
            let cwd = match cwd {
                Some(cwd) => Some(existed(cwd@)),
                None => None,
            };
            let name = name_of(comm, args);
            &&& r.name@ == if name.len() == 0 {
                seq!['['] + decimal(pid as nat) + seq![']']
            } else {
                name
            }
            &&& texts(r.context@) == new_entries(name, sources(comm, args, cwd, cgroup@, opt_str(home)))
        }),
        r.name@.len() > 0,
{
    let read = from_utf8_lossy(comm);
    let args = split_arguments(cmdline);
    let dir: Option<&str> = match cwd {
        Some(cwd) => Some(
            match strip_suffix(cwd, " (deleted)") {
                Some(dir) => dir,
                None => cwd,
            },
        ),
        None => None,
    };
    let mut origin = describe(trim_end(read.as_str()), args.as_slice(), dir, cgroup, home);
    if origin.name.as_str().is_empty() {
        let mut name = String::new();
        name.push('[');
        name.append(unsigned(pid as u64).as_str());
        name.push(']');
        assert(name@ =~= seq!['['] + decimal(pid as nat) + seq![']']);
        origin.name = name;
    }
    origin
}

} // verus!
