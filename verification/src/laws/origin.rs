//! What holds of what a process is said to be.
use crate::modules::origin::{
    app_of, application_of, at_nul, bus_service, called, cut_short, existed, family_of, generated, hex, is_random,
    is_venv, is_virtual, known, name_of, new_entries, numbered, own_name, project_of, run_by,
    sources, started_by, stem_of, target_of, unescaped, unified, unit_name, unit_of, unpadded, venv_at,
    venv_project, Grammar,
};
use crate::paths::{file_name, names, rooted, same_path};
use crate::text::{
    cut, is_digit, lowercase, pieces, tail, utf8_len,
};
use vstd::prelude::*;
use vstd::string::*;

verus! {

/// A family is a name without the version behind it.
pub proof fn law_families_go_without_their_version(name: Seq<char>)
    ensures
        family_of(name).is_prefix_of(name),
        family_of(name).len() > 0 ==> !is_digit(family_of(name).last()) && family_of(name).last()
            != '.',
        forall|i: int|
            family_of(name).len() <= i < name.len() ==> is_digit(#[trigger] name[i]) || name[i]
                == '.',
    decreases name.len(),
{
    if name.len() > 0 && (is_digit(name.last()) || name.last() == '.') {
        let before = name.drop_last();
        law_families_go_without_their_version(before);
        let n = family_of(name).len() as int;
        assert(name.subrange(0, n) =~= before.subrange(0, n));
        assert forall|i: int| n <= i < name.len() implies is_digit(#[trigger] name[i]) || name[i]
            == '.' by {
            if i < before.len() {
                assert(before[i] == name[i]);
            } else {
                assert(name[i] == name.last());
            }
        }
    } else {
        assert(name.subrange(0, name.len() as int) =~= name);
    }
}

/// What an interpreter runs: the value of an option that names it, and otherwise
/// the first word that is neither an option nor an option's value; nothing where
/// the code stands on the command line itself.
pub proof fn law_interpreters_run_what_they_are_handed(
    g: Grammar,
    arg: Seq<char>,
    next: Seq<char>,
    rest: Seq<Seq<char>>,
    leading: bool,
)
    ensures
        ({
            let args = seq![arg, next] + rest;
            &&& g.inline.contains(arg) ==> target_of(g, args, leading) is None
            &&& !g.inline.contains(arg) && g.program.contains(arg) ==> target_of(g, args, leading)
                == Some(called(next))
            &&& !g.inline.contains(arg) && !g.program.contains(arg) && g.valued.contains(arg)
                ==> target_of(g, args, leading) == target_of(g, rest, leading)
            &&& !g.inline.contains(arg) && !g.program.contains(arg) && !g.valued.contains(arg) && arg
                != "--"@ && arg.len() > 0 && arg[0] == '-' ==> target_of(g, args, leading)
                == target_of(g, seq![next] + rest, leading)
            &&& !g.inline.contains(arg) && !g.program.contains(arg) && !g.valued.contains(arg)
                && arg == "--"@ ==> target_of(g, args, leading) == Some(called(next))
            &&& !g.inline.contains(arg) && !g.program.contains(arg) && !g.valued.contains(arg)
                && arg.len() > 0 && arg[0] != '-' && !g.subcommands.contains(arg) ==> target_of(
                g,
                args,
                leading,
            ) == Some(called(arg))
            &&& !g.inline.contains(arg) && !g.program.contains(arg) && !g.valued.contains(arg)
                && arg.len() > 0 && arg[0] != '-' && g.subcommands.contains(arg) ==> target_of(
                g,
                args,
                true,
            ) == target_of(g, seq![next] + rest, false)
        }),
        target_of(g, Seq::empty(), leading) is None,
{
    let args = seq![arg, next] + rest;
    reveal_strlit("--");
    assert("--"@.len() == 2 && "--"@[0] == '-');
    assert(args[0] == arg);
    assert(args.skip(1) =~= seq![next] + rest);
    assert((seq![next] + rest).skip(1) =~= rest);
    assert((seq![next] + rest)[0] == next);
}

/// An interpreter is known by its family, and its options for what they do.
pub proof fn law_interpreters_are_known_by_their_family(family: Seq<char>)
    ensures
        known(family) matches Some(g) ==> g.family == family,
        family == "python"@ || family == "pypy"@ ==> (known(family) matches Some(g)
            && g.program.contains("-m"@) && g.inline.contains("-c"@) && g.valued.contains("-W"@)
            && g.valued.contains("-X"@) && g.subcommands.len() == 0),
        family == "bash"@ || family == "sh"@ || family == "zsh"@ || family == "fish"@ ==> (
        known(family) matches Some(g) && g.inline.contains("-c"@) && g.program.len() == 0),
        family == "node"@ || family == "bun"@ ==> (known(family) matches Some(g)
            && g.inline.contains("-e"@) && g.inline.contains("--eval"@) && g.inline.contains("-p"@)
            && g.valued.contains("-r"@) && g.program.len() == 0),
        family == "bun"@ || family == "deno"@ ==> (known(family) matches Some(g)
            && g.subcommands.contains("run"@) && g.subcommands.contains("test"@)),
        family == "java"@ ==> (known(family) matches Some(g) && g.program.contains("-jar"@)
            && g.program.contains("-m"@) && g.valued.contains("-cp"@) && g.inline.len() == 0),
        family == "ruby"@ || family == "perl"@ || family == "julia"@ || family == "Rscript"@
            || family == "lua"@ ==> (known(family) matches Some(g) && g.inline.contains("-e"@)
            && g.program.len() == 0 && g.subcommands.len() == 0),
{
    lemma_families();
    let g = known(family)->0;
    if family == "python"@ {
        assert(g.program[0] == "-m"@ && g.inline[0] == "-c"@ && g.valued[0] == "-W"@ && g.valued[1]
            == "-X"@);
    }
    if family == "pypy"@ {
        assert(g.program[0] == "-m"@ && g.inline[0] == "-c"@ && g.valued[0] == "-W"@ && g.valued[1]
            == "-X"@);
    }
    if family == "bash"@ || family == "sh"@ || family == "zsh"@ || family == "fish"@ {
        assert(g.inline[0] == "-c"@);
    }
    if family == "node"@ || family == "bun"@ {
        assert(g.inline[0] == "-e"@ && g.inline[1] == "--eval"@ && g.inline[2] == "-p"@
            && g.valued[0] == "-r"@);
    }
    if family == "bun"@ || family == "deno"@ {
        assert(g.subcommands[0] == "run"@ && g.subcommands[1] == "test"@);
    }
    if family == "java"@ {
        assert(g.program[0] == "-jar"@ && g.program[1] == "-m"@ && g.valued[0] == "-cp"@);
    }
    if family == "ruby"@ || family == "perl"@ || family == "julia"@ || family == "Rscript"@
        || family == "lua"@ {
        assert(g.inline[0] == "-e"@);
    }
}

proof fn lemma_families()
    ensures
        "python"@.len() == 6 && "pypy"@.len() == 4 && "node"@.len() == 4 && "bun"@.len() == 3
            && "deno"@.len() == 4 && "ruby"@.len() == 4 && "perl"@.len() == 4 && "java"@.len() == 4
            && "julia"@.len() == 5 && "Rscript"@.len() == 7 && "lua"@.len() == 3 && "bash"@.len()
            == 4 && "sh"@.len() == 2 && "zsh"@.len() == 3 && "fish"@.len() == 4,
        "pypy"@[0] == 'p' && "node"@[0] == 'n' && "deno"@[0] == 'd' && "ruby"@[0] == 'r'
            && "perl"@[0] == 'p' && "java"@[0] == 'j' && "bash"@[0] == 'b' && "fish"@[0] == 'f',
        "pypy"@[1] == 'y' && "perl"@[1] == 'e',
        "bun"@[0] == 'b' && "lua"@[0] == 'l' && "zsh"@[0] == 'z',
{
    reveal_strlit("python");
    reveal_strlit("pypy");
    reveal_strlit("node");
    reveal_strlit("bun");
    reveal_strlit("deno");
    reveal_strlit("ruby");
    reveal_strlit("perl");
    reveal_strlit("java");
    reveal_strlit("julia");
    reveal_strlit("Rscript");
    reveal_strlit("lua");
    reveal_strlit("bash");
    reveal_strlit("sh");
    reveal_strlit("zsh");
    reveal_strlit("fish");
}

/// A program goes by its file, and a package's entry point by the package.
pub proof fn law_programs_go_by_their_file(program: Seq<char>)
    ensures
        file_name(names(program)) != Some("__main__.py"@) ==> called(program) == tail(program, '/'),
        file_name(names(program)) == Some("__main__.py"@) && file_name(
            names(program).drop_last(),
        ) is Some ==> Some(called(program)) == file_name(names(program).drop_last()),
{
}

/// A process that no interpreter runs goes by its own name, or by what it was
/// started as where its own name was cut short.
pub proof fn law_processes_go_by_their_own_name(comm: Seq<char>, args: Seq<Seq<char>>)
    ensures
        run_by(comm, args) is None && comm.len() > 0 && !cut_short(comm, started_by(args))
            ==> name_of(comm, args) == comm,
        run_by(comm, args) is None && cut_short(comm, started_by(args)) ==> name_of(comm, args)
            == started_by(args),
        comm.len() == 0 ==> own_name(comm, args) == started_by(args),
        run_by(comm, args) matches Some(g) ==> (args.len() > 0 && target_of(
            g,
            args.skip(1),
            true,
        ) is Some && family_of(comm) == g.family ==> name_of(comm, args) == target_of(
            g,
            args.skip(1),
            true,
        )->0),
        known(family_of(started_by(args))) is Some ==> run_by(comm, args) == known(
            family_of(started_by(args)),
        ),
        known(family_of(started_by(args))) is None ==> run_by(comm, args) == known(family_of(comm)),
        args.len() > 0 ==> started_by(args) == tail(args[0], '/'),
{
}

/// What is said of a process comes in order, the most specific first, and whatever
/// is new is said.
pub proof fn law_new_entries_are_said(name: Seq<char>, entries: Seq<Seq<char>>, i: int)
    requires
        0 <= i < entries.len(),
        lowercase(entries[i]) != lowercase(name),
        forall|k: int| 0 <= k < i ==> lowercase(#[trigger] entries[k]) != lowercase(entries[i]),
    ensures
        new_entries(name, entries).contains(entries[i]),
    decreases entries.len(),
{
    let before = entries.drop_last();
    let some = new_entries(name, before);
    let all = new_entries(name, entries);
    if i < before.len() {
        assert forall|k: int| 0 <= k < i implies lowercase(#[trigger] before[k]) != lowercase(
            before[i],
        ) by {
            assert(before[k] == entries[k]);
        }
        law_new_entries_are_said(name, before, i);
        let k = choose|k: int| 0 <= k < some.len() && some[k] == before[i];
        assert(all[k] == some[k]);
    } else {
        assert(all[all.len() - 1] == entries[i]);
    }
}

/// The interpreter is said before the project, and the project before the unit.
pub proof fn law_the_most_specific_comes_first(
    comm: Seq<char>,
    args: Seq<Seq<char>>,
    cwd: Option<Seq<char>>,
    cgroup: Seq<char>,
    home: Option<Seq<char>>,
)
    requires
        args.len() > 0,
    ensures
        ({
            let all = sources(comm, args, cwd, cgroup, home);
            &&& unit_of(cgroup) matches Some(unit) ==> all.len() > 0 && all.last() == unit
            &&& run_by(comm, args) is None ==> (project_of(Some(args[0]), cwd, home) matches Some(
                project,
            ) ==> all.len() > 0 && all[0] == project)
            &&& run_by(comm, args) matches Some(g) ==> (g.family != family_of(name_of(comm, args))
                ==> all.len() > 0 && all[0] == g.family)
            &&& all.len() <= 3
        }),
{
}

/// The project is that of the virtual environment that the program stands in, and
/// otherwise the directory it runs in, where that says anything.
pub proof fn law_projects_are_where_a_process_runs(
    argv0: Seq<char>,
    cwd: Seq<char>,
    home: Option<Seq<char>>,
)
    ensures
        argv0.contains('/') && venv_project(argv0, Some(cwd)) is Some ==> project_of(
            Some(argv0),
            Some(cwd),
            home,
        ) == venv_project(argv0, Some(cwd)),
        !argv0.contains('/') && home is Some && same_path(cwd, home->0) ==> project_of(
            Some(argv0),
            Some(cwd),
            home,
        ) is None,
        !argv0.contains('/') && is_virtual(cwd) ==> project_of(Some(argv0), Some(cwd), home) is None,
        !argv0.contains('/') && home is None && !is_virtual(cwd) && names(cwd).len() > 0
            ==> project_of(Some(argv0), Some(cwd), home) == file_name(names(cwd)),
        project_of(None, None, home) is None,
        rooted(cwd) && names(cwd).len() > 0 && (names(cwd)[0] == "proc"@ || names(cwd)[0] == "sys"@
            || names(cwd)[0] == "dev"@) ==> is_virtual(cwd),
{
}

/// A virtual environment is found by its name, the last of the path.
pub proof fn law_environments_are_found_by_their_name(path: Seq<Seq<char>>)
    ensures
        venv_at(path) matches Some(at) ==> 0 <= at < path.len() && (path[at] == ".venv"@ || path[at]
            == "venv"@) && forall|i: int|
            at < i < path.len() ==> #[trigger] path[i] != ".venv"@ && path[i] != "venv"@,
        venv_at(path) is None ==> forall|i: int|
            0 <= i < path.len() ==> #[trigger] path[i] != ".venv"@ && path[i] != "venv"@,
    decreases path.len(),
{
    if path.len() > 0 {
        let before = path.drop_last();
        law_environments_are_found_by_their_name(before);
        if !is_venv(path.last()) {
            assert forall|i: int|
                0 <= i < path.len() && (venv_at(before) matches Some(at) ==> at
                    < i) implies #[trigger] path[i] != ".venv"@ && path[i] != "venv"@ by {
                if i < before.len() {
                    assert(before[i] == path[i]);
                }
            }
        }
    }
}

/// An escaped character stands for the character of its code.
pub proof fn law_escapes_stand_for_their_character(
    high: char,
    low: char,
    rest: Seq<char>,
    a: int,
    b: int,
)
    requires
        hex(high) == Some(a),
        hex(low) == Some(b),
        a * 16 + b < 128,
    ensures
        unescaped(seq!['\\', 'x', high, low] + rest) == seq![(a * 16 + b) as char] + unescaped(rest),
        '0' <= high <= '9' ==> a == high as int - '0' as int,
        'a' <= high <= 'f' ==> a == high as int - 'a' as int + 10,
        'A' <= high <= 'F' ==> a == high as int - 'A' as int + 10,
{
    let s = seq!['\\', 'x', high, low] + rest;
    assert(s.skip(4) =~= rest);
    assert(s[0] == '\\' && s[1] == 'x' && s[2] == high && s[3] == low);
}

/// An application goes by its id behind the first two parts of it.
pub proof fn law_applications_go_by_what_is_behind_their_domain(
    a: Seq<char>,
    b: Seq<char>,
    name: Seq<char>,
)
    requires
        !a.contains('.'),
        !b.contains('.'),
        !(a + seq!['.'] + b + seq!['.'] + name).contains('\\'),
        name.len() > 0,
    ensures
        application_of(a + seq!['.'] + b + seq!['.'] + name) == Some(name),
{
    let id = a + seq!['.'] + b + seq!['.'] + name;
    crate::modules::origin::law_plain_names_are_kept(id);
    lemma_cut_there(a, '.', b + seq!['.'] + name);
    assert(id =~= a + seq!['.'] + (b + seq!['.'] + name));
    lemma_cut_there(b, '.', name);
}

proof fn lemma_cut_there(a: Seq<char>, c: char, b: Seq<char>)
    requires
        !a.contains(c),
    ensures
        cut(a + seq![c] + b, c) == Some((a, b)),
{
    let s = a + seq![c] + b;
    s.index_of_first_ensures(c);
    let at = a.len() as int;
    assert(s[at] == c);
    assert(s.contains(c));
    assert forall|k: int| 0 <= k < at implies s[k] != c by {
        assert(s[k] == a[k]);
        assert(a.contains(a[k]));
    }
    assert(s.take(at) =~= a);
    assert(s.skip(at + 1) =~= b);
}

/// A unit that was made up for a run says nothing of it, nor does a session.
pub proof fn law_made_up_units_say_nothing(rest: Seq<char>)
    ensures
        unit_name("session-"@ + rest) is None,
        unit_name("user@"@ + rest) is None,
        numbered(rest, 'u') && !rest.contains('-') ==> generated("run-"@ + rest) && unit_name(
            "run-"@ + rest,
        ) is None,
{
    let (s, u, r) = ("session-"@ + rest, "user@"@ + rest, "run-"@ + rest);
    assert(s.subrange(0, "session-"@.len() as int) =~= "session-"@);
    assert(u.subrange(0, "user@"@.len() as int) =~= "user@"@);
    assert(r.subrange(0, "run-"@.len() as int) =~= "run-"@);
    assert("session-"@.is_prefix_of(s));
    assert("user@"@.is_prefix_of(u));
    assert("run-"@.is_prefix_of(r));
    assert(r.skip("run-"@.len() as int) =~= rest);
    rest.index_of_first_ensures('-');
}

/// Containers go by what runs them.
pub proof fn law_containers_go_by_what_runs_them(rest: Seq<char>)
    ensures
        unit_name("libpod-"@ + rest) == Some("podman"@),
        unit_name("docker-"@ + rest) == Some("docker"@),
{
    let (p, d) = ("libpod-"@ + rest, "docker-"@ + rest);
    reveal_strlit("libpod-");
    reveal_strlit("docker-");
    reveal_strlit("session-");
    reveal_strlit("user@");
    reveal_strlit("init");
    reveal_strlit("run-");
    assert(p[0] == 'l' && d[0] == 'd');
    assert("session-"@[0] == 's' && "user@"@[0] == 'u' && "init"@[0] == 'i' && "run-"@[0] == 'r');
    lemma_other_start(p, "session-"@);
    lemma_other_start(d, "session-"@);
    lemma_other_start(p, "user@"@);
    lemma_other_start(d, "user@"@);
    lemma_other_start(p, "run-"@);
    lemma_other_start(d, "run-"@);
    lemma_other_start(d, "libpod-"@);
    assert(p.subrange(0, 7) =~= "libpod-"@);
    assert(d.subrange(0, 7) =~= "docker-"@);
    assert("libpod-"@.is_prefix_of(p));
    assert("docker-"@.is_prefix_of(d));
}

proof fn lemma_other_start(s: Seq<char>, prefix: Seq<char>)
    requires
        s.len() > 0,
        prefix.len() > 0,
        s[0] != prefix[0],
    ensures
        !prefix.is_prefix_of(s),
{
    if prefix.is_prefix_of(s) {
        assert(s.subrange(0, prefix.len() as int)[0] == s[0]);
    }
}

/// The unit is the one that the unified hierarchy names, by the last part of its
/// path, where that is a service or a scope.
pub proof fn law_units_are_named_by_the_unified_hierarchy(lines: Seq<Seq<char>>)
    ensures
        unified(lines) matches Some(path) ==> exists|i: int|
            0 <= i < lines.len() && #[trigger] lines[i] == "0::"@ + path && forall|k: int|
                0 <= k < i ==> !"0::"@.is_prefix_of(#[trigger] lines[k]),
        unified(lines) is None ==> forall|i: int|
            0 <= i < lines.len() ==> !"0::"@.is_prefix_of(#[trigger] lines[i]),
    decreases lines.len(),
{
    if lines.len() > 0 {
        let rest = lines.skip(1);
        law_units_are_named_by_the_unified_hierarchy(rest);
        assert forall|i: int| 0 < i < lines.len() implies (#[trigger] lines[i]) == rest[i - 1] by {}
        if "0::"@.is_prefix_of(lines[0]) {
            let n = "0::"@.len() as int;
            assert(lines[0].subrange(0, n) =~= "0::"@);
            assert(lines[0] =~= "0::"@ + lines[0].skip(n));
        } else if unified(rest) is Some {
            let path = unified(rest)->0;
            let i = choose|i: int|
                0 <= i < rest.len() && #[trigger] rest[i] == "0::"@ + path && forall|k: int|
                    0 <= k < i ==> !"0::"@.is_prefix_of(#[trigger] rest[k]);
            assert(lines[i + 1] == rest[i]);
            assert forall|k: int| 0 <= k < i + 1 implies !"0::"@.is_prefix_of(
                #[trigger] lines[k],
            ) by {
                if k > 0 {
                    assert(rest[k - 1] == lines[k]);
                }
            }
        }
    }
}

/// Arguments end where they are ended: one more, and what was before stays.
pub proof fn law_arguments_end_at_their_end(bytes: Seq<u8>, more: Seq<u8>)
    requires
        !more.contains(0u8),
    ensures
        at_nul(bytes + seq![0u8] + more) == at_nul(bytes).push(more),
    decreases more.len(),
{
    let all = bytes + seq![0u8] + more;
    if more.len() == 0 {
        assert(all.drop_last() =~= bytes);
        assert(more =~= Seq::empty());
    } else {
        let before = more.drop_last();
        assert(!before.contains(0u8)) by {
            if before.contains(0u8) {
                let k = choose|k: int| 0 <= k < before.len() && before[k] == 0u8;
                assert(more[k] == 0u8);
            }
        }
        law_arguments_end_at_their_end(bytes, before);
        assert(all.drop_last() =~= bytes + seq![0u8] + before);
        assert(all.last() == more.last());
        assert(more.contains(more.last())) by {
            assert(more[more.len() - 1] == more.last());
        }
        let some = at_nul(bytes).push(before);
        assert(some.drop_last() =~= at_nul(bytes));
        assert(before.push(more.last()) =~= more);
    }
}

/// Empty arguments at the end are left out, and no other.
pub proof fn law_only_empty_arguments_at_the_end_are_left_out(args: Seq<Seq<char>>)
    ensures
        unpadded(args).is_prefix_of(args),
        unpadded(args).len() > 0 ==> unpadded(args).last().len() > 0,
        forall|i: int|
            unpadded(args).len() <= i < args.len() ==> (#[trigger] args[i]).len() == 0,
    decreases args.len(),
{
    if args.len() > 0 && args.last().len() == 0 {
        let before = args.drop_last();
        law_only_empty_arguments_at_the_end_are_left_out(before);
        let n = unpadded(args).len() as int;
        assert(args.subrange(0, n) =~= before.subrange(0, n));
        assert forall|i: int| n <= i < args.len() implies (#[trigger] args[i]).len() == 0 by {
            if i < before.len() {
                assert(before[i] == args[i]);
            } else {
                assert(args[i] == args.last());
            }
        }
    } else {
        assert(args.subrange(0, args.len() as int) =~= args);
    }
}

/// A directory that was deleted goes by the name it had.
pub proof fn law_deleted_directories_go_by_their_name(dir: Seq<char>)
    ensures
        existed(dir + " (deleted)"@) == dir,
{
    let s = dir + " (deleted)"@;
    assert(s.subrange(dir.len() as int, s.len() as int) =~= " (deleted)"@);
    assert(" (deleted)"@.is_suffix_of(s));
    assert(s.take(s.len() - " (deleted)"@.len()) =~= dir);
}

/// A code that is no ASCII character is left as it was written.
pub proof fn law_other_escapes_are_left(high: char, low: char, rest: Seq<char>, a: int, b: int)
    requires
        hex(high) == Some(a),
        hex(low) == Some(b),
        a * 16 + b >= 128,
    ensures
        unescaped(seq!['\\', 'x', high, low] + rest) == seq!['\\', 'x'] + unescaped(
            seq![high, low] + rest,
        ),
{
    let s = seq!['\\', 'x', high, low] + rest;
    assert(s.skip(2) =~= seq![high, low] + rest);
    assert(s[0] == '\\' && s[1] == 'x' && s[2] == high && s[3] == low);
}

/// A script that an interpreter is handed alone is what it runs.
pub proof fn law_a_lone_script_is_run(g: Grammar, arg: Seq<char>, leading: bool)
    requires
        arg.len() > 0,
        arg[0] != '-',
        !g.inline.contains(arg),
        !g.program.contains(arg),
        !g.valued.contains(arg),
        !g.subcommands.contains(arg),
    ensures
        target_of(g, seq![arg], leading) == Some(called(arg)),
{
    reveal_strlit("--");
    assert("--"@[0] == '-');
}

/// An application's unit goes by the application, without the random part behind
/// it; one that was started through a wrapper goes by what started it.
pub proof fn law_units_go_by_their_application(parts: Seq<Seq<char>>, app: Seq<char>)
    requires
        parts == pieces(app, '-'),
    ensures
        parts.len() == 1 ==> app_of(app) == application_of(parts[0]),
        parts.len() == 2 && is_random(parts[1]) ==> app_of(app) == application_of(parts[0]),
        parts.len() == 2 && !is_random(parts[1]) && unescaped(parts[1]) != "env"@ && unescaped(
            parts[1],
        ) != "sh"@ && unescaped(parts[1]) != "bash"@ && unescaped(parts[1]) != "exec"@ && unescaped(
            parts[1],
        ) != "systemd-run"@ ==> app_of(app) == application_of(parts[1]),
        parts.len() == 2 && !is_random(parts[1]) && (unescaped(parts[1]) == "env"@ || unescaped(
            parts[1],
        ) == "sh"@ || unescaped(parts[1]) == "bash"@ || unescaped(parts[1]) == "exec"@ || unescaped(
            parts[1],
        ) == "systemd-run"@) ==> app_of(app) == Some(unescaped(parts[0])),
        parts.len() == 3 && is_random(parts[2]) && !(unescaped(parts[1]) == "env"@ || unescaped(
            parts[1],
        ) == "sh"@ || unescaped(parts[1]) == "bash"@ || unescaped(parts[1]) == "exec"@ || unescaped(
            parts[1],
        ) == "systemd-run"@) ==> app_of(app) == application_of(parts[1]),
{
}

/// A part is random where it is hexadecimal and holds a digit.
pub proof fn law_random_parts_are_hexadecimal(id: Seq<char>)
    ensures
        is_random(id) ==> id.len() > 0 && forall|i: int|
            0 <= i < id.len() ==> ('0' <= #[trigger] id[i] <= '9' || 'a' <= id[i] <= 'f' || 'A'
                <= id[i] <= 'F'),
        (forall|i: int| 0 <= i < id.len() ==> '0' <= #[trigger] id[i] <= '9') && id.len() > 0
            ==> is_random(id),
        (forall|i: int| 0 <= i < id.len() ==> !('0' <= #[trigger] id[i] <= '9')) ==> !is_random(id),
{
    if is_random(id) {
        assert forall|i: int| 0 <= i < id.len() implies ('0' <= #[trigger] id[i] <= '9' || 'a'
            <= id[i] <= 'f' || 'A' <= id[i] <= 'F') by {
            assert(hex(id[i]) is Some);
        }
    }
    if (forall|i: int| 0 <= i < id.len() ==> '0' <= #[trigger] id[i] <= '9') && id.len() > 0 {
        assert(is_digit(id[0]));
        assert forall|i: int| 0 <= i < id.len() implies hex(#[trigger] id[i]) is Some by {}
    }
}

/// A name was cut short where it fills its place and starts the full one, but for
/// what was lost of its last character.
pub proof fn law_names_are_cut_at_their_place(comm: Seq<char>, full: Seq<char>)
    ensures
        utf8_len(comm) < 15 ==> !cut_short(comm, full),
        utf8_len(comm) >= 15 && comm.len() > 0 && comm.last() != '\u{FFFD}' ==> (cut_short(comm, full)
            <==> comm.is_prefix_of(full)),
        stem_of(comm).is_prefix_of(comm),
        stem_of(comm).len() > 0 ==> stem_of(comm).last() != '\u{FFFD}',
        stem_of(comm.push('\u{FFFD}')) == stem_of(comm),
    decreases comm.len(),
{
    assert(comm.push('\u{FFFD}').drop_last() =~= comm);
    if comm.len() > 0 && comm.last() == '\u{FFFD}' {
        let before = comm.drop_last();
        law_names_are_cut_at_their_place(before, full);
        let n = stem_of(comm).len() as int;
        assert(comm.subrange(0, n) =~= before.subrange(0, n));
    } else {
        assert(comm.subrange(0, comm.len() as int) =~= comm);
    }
}

/// A numbered part is its letter and digits, at least one.
pub proof fn law_numbered_parts_are_a_letter_and_digits(digits: Seq<char>, letter: char)
    ensures
        numbered(seq![letter] + digits, letter) <==> digits.len() > 0 && forall|i: int|
            0 <= i < digits.len() ==> is_digit(#[trigger] digits[i]),
        forall|other: char| other != letter ==> !#[trigger] numbered(seq![letter] + digits, other),
{
    let part = seq![letter] + digits;
    if numbered(part, letter) {
        assert forall|i: int| 0 <= i < digits.len() implies is_digit(#[trigger] digits[i]) by {
            assert(part[i + 1] == digits[i]);
        }
    }
    if digits.len() > 0 && forall|i: int| 0 <= i < digits.len() ==> is_digit(#[trigger] digits[i]) {
        assert forall|i: int| 1 <= i < part.len() implies is_digit(#[trigger] part[i]) by {
            assert(part[i] == digits[i - 1]);
        }
    }
}

/// An option that names the program names nothing at the end of the line.
pub proof fn law_an_option_at_the_end_names_nothing(g: Grammar, arg: Seq<char>, leading: bool)
    requires
        g.program.contains(arg) || g.valued.contains(arg) || (arg.len() > 0 && arg[0] == '-'),
    ensures
        target_of(g, seq![arg], leading) is None,
{
    reveal_with_fuel(target_of, 3);
    assert(seq![arg].skip(1) =~= Seq::empty());
}

/// A letter of a code is worth what it is.
pub proof fn law_codes_are_hexadecimal(c: char)
    ensures
        '0' <= c <= '9' ==> hex(c) == Some(c as int - '0' as int),
        'a' <= c <= 'f' ==> hex(c) == Some(c as int - 'a' as int + 10),
        'A' <= c <= 'F' ==> hex(c) == Some(c as int - 'A' as int + 10),
        hex(c) matches Some(n) ==> 0 <= n < 16,
        hex(c) is None ==> !('0' <= c <= '9') && !('a' <= c <= 'f') && !('A' <= c <= 'F'),
{
}

/// A service on the bus goes by its application.
pub proof fn law_services_go_by_their_application(owner: Seq<char>, service: Seq<char>)
    requires
        !owner.contains('-'),
        !service.contains('@'),
    ensures
        bus_service("dbus-:"@ + (owner + seq!['-'] + service)) == Some(service),
        unit_name("dbus-:"@ + (owner + seq!['-'] + service)) == application_of(service),
{
    let rest = owner + seq!['-'] + service;
    let stem = "dbus-:"@ + rest;
    reveal_strlit("dbus-:");
    reveal_strlit("session-");
    reveal_strlit("user@");
    reveal_strlit("init");
    reveal_strlit("run-");
    reveal_strlit("libpod-");
    reveal_strlit("docker-");
    assert("dbus-:"@.len() == 6 && "docker-"@.len() == 7);
    assert(stem[0] == 'd' && stem[1] == 'b');
    assert("session-"@[0] == 's' && "user@"@[0] == 'u' && "init"@[0] == 'i' && "run-"@[0] == 'r'
        && "libpod-"@[0] == 'l' && "docker-"@[1] == 'o');
    lemma_other_start(stem, "session-"@);
    lemma_other_start(stem, "user@"@);
    lemma_other_start(stem, "run-"@);
    lemma_other_start(stem, "libpod-"@);
    assert(!"docker-"@.is_prefix_of(stem)) by {
        if "docker-"@.is_prefix_of(stem) {
            assert(stem.subrange(0, 7)[1] == stem[1]);
        }
    }
    assert(stem.subrange(0, 6) =~= "dbus-:"@);
    assert("dbus-:"@.is_prefix_of(stem));
    assert(stem.skip(6) =~= rest);
    lemma_cut_there(owner, '-', service);
    service.index_of_first_ensures('@');
}

/// A unit that was made up for a process and a run of it says nothing either.
pub proof fn law_units_of_runs_are_made_up(pid: Seq<char>, run: Seq<char>)
    requires
        !pid.contains('-'),
    ensures
        generated("run-"@ + (pid + seq!['-'] + run)) <==> numbered(pid, 'p') && numbered(run, 'i'),
{
    let rest = pid + seq!['-'] + run;
    let stem = "run-"@ + rest;
    assert(stem.subrange(0, "run-"@.len() as int) =~= "run-"@);
    assert("run-"@.is_prefix_of(stem));
    assert(stem.skip("run-"@.len() as int) =~= rest);
    lemma_cut_there(pid, '-', run);
}

/// A path is virtual where it stands in a file system that the kernel makes up.
pub proof fn law_virtual_paths_stand_in_made_up_file_systems(path: Seq<char>)
    ensures
        is_virtual(path) <==> rooted(path) && names(path).len() > 0 && (names(path)[0] == "proc"@
            || names(path)[0] == "sys"@ || names(path)[0] == "dev"@),
{
}

} // verus!
