//! Unix paths, as the names between their slashes.
use crate::text::{concat, join, joined, lemma_pieces_nonempty, pieces, same, split, texts};
use vstd::prelude::*;
use vstd::string::*;

verus! {

/// Whether a path starts at the root.
pub open spec fn rooted(path: Seq<char>) -> bool {
    path.len() > 0 && path[0] == '/'
}

/// The names among the pieces of a path: repeated slashes make no name, and
/// neither does a `.`, unless a relative path starts with it.
pub open spec fn named(pieces: Seq<Seq<char>>, root: bool) -> Seq<Seq<char>>
    decreases pieces.len(),
{
    if pieces.len() == 0 {
        Seq::empty()
    } else {
        let before = named(pieces.drop_last(), root);
        let piece = pieces.last();
        if piece.len() == 0 || (piece == "."@ && (root || pieces.len() > 1)) {
            before
        } else {
            before.push(piece)
        }
    }
}

/// The names of a path, from the root or the current directory down.
pub open spec fn names(path: Seq<char>) -> Seq<Seq<char>> {
    named(pieces(path, '/'), rooted(path))
}

/// Whether a name in a path is a file's own, rather than `.` or `..`.
pub open spec fn proper(name: Seq<char>) -> bool {
    name != "."@ && name != ".."@
}

/// The last of a path's names, where it is a file's own.
pub open spec fn file_name(names: Seq<Seq<char>>) -> Option<Seq<char>> {
    if names.len() > 0 && proper(names.last()) {
        Some(names.last())
    } else {
        None
    }
}

/// `path` as seen from the directory `base`.
pub open spec fn seen_from(base: Seq<char>, path: Seq<char>) -> Seq<char> {
    if rooted(path) {
        path
    } else if base.len() == 0 || base.last() == '/' {
        base + path
    } else {
        base.push('/') + path
    }
}

/// Whether two paths name the same file by the same names.
pub open spec fn same_path(a: Seq<char>, b: Seq<char>) -> bool {
    rooted(a) == rooted(b) && names(a) == names(b)
}

pub fn is_rooted(path: &str) -> (r: bool)
    ensures
        r == rooted(path@),
{
    path.unicode_len() > 0 && path.get_char(0) == '/'
}

pub fn names_of(path: &str) -> (r: Vec<String>)
    ensures
        texts(r@) == names(path@),
{
    let root = is_rooted(path);
    let parts = split(path, '/');
    let mut out: Vec<String> = Vec::new();
    let mut i: usize = 0;
    assert(texts(out@) =~= Seq::empty());
    while i < parts.len()
        invariant
            i <= parts@.len(),
            root == rooted(path@),
            texts(parts@) == pieces(path@, '/'),
            texts(out@) == named(texts(parts@).take(i as int), root),
        decreases parts@.len() - i,
    {
        let piece = parts[i].as_str();
        proof {
            assert(texts(parts@).take(i + 1).drop_last() =~= texts(parts@).take(i as int));
            assert(texts(parts@)[i as int] == piece@);
        }
        if !(piece.is_empty() || (same(piece, ".") && (root || i > 0))) {
            let ghost had = out@;
            out.push(piece.to_owned());
            assert(texts(out@) =~= texts(had).push(piece@));
        }
        i += 1;
    }
    assert(texts(parts@).take(i as int) =~= texts(parts@));
    out
}

pub fn is_proper(name: &str) -> (r: bool)
    ensures
        r == proper(name@),
{
    !same(name, ".") && !same(name, "..")
}

pub fn join_path(base: &str, path: &str) -> (r: String)
    ensures
        r@ == seen_from(base@, path@),
{
    if is_rooted(path) {
        return path.to_owned();
    }
    let mut out = base.to_owned();
    let n = base.unicode_len();
    if n > 0 && base.get_char(n - 1) != '/' {
        out.push('/');
    }
    out.append(path);
    out
}

/// Whether two lists hold the same texts in the same order.
pub fn same_texts(a: &Vec<String>, b: &Vec<String>) -> (r: bool)
    ensures
        r == (texts(a@) == texts(b@)),
{
    if a.len() != b.len() {
        assert(texts(a@).len() != texts(b@).len());
        return false;
    }
    let mut i: usize = 0;
    while i < a.len()
        invariant
            i <= a@.len(),
            a@.len() == b@.len(),
            forall|j: int| 0 <= j < i ==> (#[trigger] a@[j])@ == b@[j]@,
        decreases a@.len() - i,
    {
        if !same(a[i].as_str(), b[i].as_str()) {
            assert(texts(a@)[i as int] != texts(b@)[i as int]);
            return false;
        }
        i += 1;
    }
    assert(texts(a@) =~= texts(b@));
    true
}

pub fn is_same_path(a: &str, b: &str) -> (r: bool)
    ensures
        r == same_path(a@, b@),
{
    is_rooted(a) == is_rooted(b) && same_texts(&names_of(a), &names_of(b))
}

/// Whether `ns` can be the names of a path: none is empty or holds a slash, and
/// a `.` only starts a relative path.
pub open spec fn nameable(ns: Seq<Seq<char>>, root: bool) -> bool {
    forall|i: int|
        0 <= i < ns.len() ==> {
            &&& (#[trigger] ns[i]).len() > 0
            &&& !ns[i].contains('/')
            &&& ns[i] == "."@ ==> !root && i == 0
        }
}

/// The path with those names.
pub open spec fn spelled(ns: Seq<Seq<char>>, root: bool) -> Seq<char> {
    (if root {
        "/"@
    } else {
        Seq::empty()
    }) + joined(ns, "/"@)
}

proof fn lemma_pieces_extend(s: Seq<char>, t: Seq<char>)
    requires
        !t.contains('/'),
    ensures
        pieces(s + t, '/') == pieces(s, '/').drop_last().push(pieces(s, '/').last() + t),
    decreases t.len(),
{
    lemma_pieces_nonempty(s, '/');
    if t.len() == 0 {
        assert(s + t =~= s);
        assert(pieces(s, '/').last() + t =~= pieces(s, '/').last());
        assert(pieces(s, '/') =~= pieces(s, '/').drop_last().push(pieces(s, '/').last()));
    } else {
        let most = t.drop_last();
        assert(t.contains(t[t.len() - 1]));
        assert(!most.contains('/')) by {
            if most.contains('/') {
                let i = choose|i: int| 0 <= i < most.len() && most[i] == '/';
                assert(t[i] == '/');
            }
        }
        lemma_pieces_extend(s, most);
        assert((s + t).drop_last() =~= s + most);
        let before = pieces(s + most, '/');
        assert(before.last().push(t.last()) =~= pieces(s, '/').last() + t);
        assert(before.drop_last() =~= pieces(s, '/').drop_last());
    }
}

proof fn lemma_pieces_joined(ns: Seq<Seq<char>>)
    requires
        ns.len() > 0,
        forall|i: int| 0 <= i < ns.len() ==> !(#[trigger] ns[i]).contains('/'),
    ensures
        pieces(joined(ns, "/"@), '/') == ns,
    decreases ns.len(),
{
    reveal_strlit("/");
    assert("/"@ =~= seq!['/']);
    let empty = Seq::<char>::empty();
    if ns.len() == 1 {
        lemma_pieces_extend(empty, ns[0]);
        assert(empty + ns[0] =~= ns[0]);
        assert(pieces(empty, '/') =~= seq![empty]);
        assert(pieces(ns[0], '/') =~= ns);
    } else {
        let most = ns.drop_last();
        assert forall|i: int| 0 <= i < most.len() implies !(#[trigger] most[i]).contains('/') by {
            assert(most[i] == ns[i]);
        }
        lemma_pieces_joined(most);
        let start = joined(most, "/"@) + "/"@;
        assert(start.drop_last() =~= joined(most, "/"@));
        assert(pieces(start, '/') == most.push(empty));
        lemma_pieces_extend(start, ns[ns.len() - 1]);
        assert(pieces(start, '/').drop_last() =~= most);
        assert(empty + ns.last() =~= ns.last());
        assert(ns =~= most.push(ns.last()));
    }
}

proof fn lemma_pieces_after_slash(s: Seq<char>)
    ensures
        pieces("/"@ + s, '/') == seq![Seq::<char>::empty()] + pieces(s, '/'),
    decreases s.len(),
{
    reveal_strlit("/");
    assert("/"@ =~= seq!['/']);
    let all = "/"@ + s;
    if s.len() == 0 {
        assert(all =~= "/"@);
        assert("/"@.drop_last() =~= Seq::empty());
        assert(pieces("/"@.drop_last(), '/') == seq![Seq::<char>::empty()]);
        assert(pieces(s, '/') == seq![Seq::<char>::empty()]);
        assert(pieces("/"@, '/') == seq![Seq::<char>::empty()].push(Seq::empty()));
        assert(pieces("/"@, '/') =~= seq![Seq::<char>::empty()] + pieces(s, '/'));
    } else {
        let most = s.drop_last();
        lemma_pieces_after_slash(most);
        lemma_pieces_nonempty(most, '/');
        assert(all.drop_last() =~= "/"@ + most);
        assert(all.last() == s.last());
        let before = seq![Seq::<char>::empty()] + pieces(most, '/');
        assert(before.last() == pieces(most, '/').last());
        assert(before.drop_last() =~= seq![Seq::<char>::empty()] + pieces(most, '/').drop_last());
        assert(pieces(all, '/') =~= seq![Seq::<char>::empty()] + pieces(s, '/'));
    }
}

proof fn lemma_named_all(ns: Seq<Seq<char>>, root: bool)
    requires
        nameable(ns, root),
    ensures
        named(ns, root) == ns,
    decreases ns.len(),
{
    if ns.len() > 0 {
        let most = ns.drop_last();
        assert forall|i: int| 0 <= i < most.len() implies {
            &&& (#[trigger] most[i]).len() > 0
            &&& !most[i].contains('/')
            &&& most[i] == "."@ ==> !root && i == 0
        } by {
            assert(most[i] == ns[i]);
        }
        lemma_named_all(most, root);
        assert(ns[ns.len() - 1].len() > 0);
        assert(ns =~= most.push(ns.last()));
    } else {
        assert(ns =~= Seq::empty());
    }
}

proof fn lemma_named_under_root(ns: Seq<Seq<char>>)
    requires
        nameable(ns, true),
    ensures
        named(seq![Seq::<char>::empty()] + ns, true) == ns,
    decreases ns.len(),
{
    let all = seq![Seq::<char>::empty()] + ns;
    if ns.len() > 0 {
        let most = ns.drop_last();
        assert forall|i: int| 0 <= i < most.len() implies {
            &&& (#[trigger] most[i]).len() > 0
            &&& !most[i].contains('/')
            &&& most[i] == "."@ ==> false
        } by {
            assert(most[i] == ns[i]);
        }
        lemma_named_under_root(most);
        assert(all.drop_last() =~= seq![Seq::<char>::empty()] + most);
        assert(all.last() == ns[ns.len() - 1]);
        assert(ns[ns.len() - 1].len() > 0);
        assert(ns =~= most.push(ns.last()));
    } else {
        assert(all.drop_last() =~= Seq::empty());
        assert(all.last() == Seq::<char>::empty());
        assert(named(all.drop_last(), true) =~= Seq::empty());
        assert(ns =~= Seq::empty());
    }
}

/// A path spelled from its names has those names.
pub proof fn law_spelling_keeps_names(ns: Seq<Seq<char>>, root: bool)
    requires
        nameable(ns, root),
        !root ==> ns.len() > 0,
    ensures
        names(spelled(ns, root)) == ns,
        rooted(spelled(ns, root)) == root,
{
    reveal_strlit("/");
    assert("/"@ =~= seq!['/']);
    let text = spelled(ns, root);
    assert forall|i: int| 0 <= i < ns.len() implies !(#[trigger] ns[i]).contains('/') by {}
    if ns.len() == 0 {
        assert(joined(ns, "/"@) =~= Seq::empty());
        assert(text =~= "/"@);
        assert(pieces("/"@.drop_last(), '/') =~= seq![Seq::<char>::empty()]) by {
            assert("/"@.drop_last() =~= Seq::empty());
        }
        let p = pieces("/"@, '/');
        assert(p =~= seq![Seq::<char>::empty(), Seq::<char>::empty()]);
        assert(p.drop_last().drop_last() =~= Seq::empty());
        assert(p.drop_last().last() == Seq::<char>::empty());
        assert(named(p.drop_last().drop_last(), true) =~= Seq::empty());
        assert(named(p.drop_last(), true) =~= Seq::empty());
        assert(ns =~= Seq::empty());
    } else if root {
        lemma_pieces_joined(ns);
        lemma_pieces_after_slash(joined(ns, "/"@));
        lemma_named_under_root(ns);
    } else {
        lemma_pieces_joined(ns);
        assert(text =~= joined(ns, "/"@));
        lemma_joined_head(ns);
        assert(ns[0].len() > 0);
        if text[0] == '/' {
            assert(ns[0].contains(ns[0][0]));
        }
        lemma_named_all(ns, root);
    }
}

proof fn lemma_joined_head(ns: Seq<Seq<char>>)
    requires
        ns.len() > 0,
        ns[0].len() > 0,
    ensures
        joined(ns, "/"@).len() > 0,
        joined(ns, "/"@)[0] == ns[0][0],
    decreases ns.len(),
{
    if ns.len() > 1 {
        lemma_joined_head(ns.drop_last());
    }
}

proof fn lemma_names_nameable(pieces: Seq<Seq<char>>, root: bool)
    requires
        forall|i: int| 0 <= i < pieces.len() ==> !(#[trigger] pieces[i]).contains('/'),
    ensures
        forall|i: int|
            0 <= i < named(pieces, root).len() ==> {
                &&& (#[trigger] named(pieces, root)[i]).len() > 0
                &&& !named(pieces, root)[i].contains('/')
                &&& named(pieces, root)[i] == "."@ ==> !root && i == 0
            },
        pieces.len() == 0 ==> named(pieces, root).len() == 0,
    decreases pieces.len(),
{
    if pieces.len() > 0 {
        let most = pieces.drop_last();
        assert forall|i: int| 0 <= i < most.len() implies !(#[trigger] most[i]).contains('/') by {
            assert(most[i] == pieces[i]);
        }
        lemma_names_nameable(most, root);
        assert(!pieces[pieces.len() - 1].contains('/'));
        let before = named(most, root);
        let all = named(pieces, root);
        assert forall|i: int| 0 <= i < all.len() implies {
            &&& (#[trigger] all[i]).len() > 0
            &&& !all[i].contains('/')
            &&& all[i] == "."@ ==> !root && i == 0
        } by {
            if i < before.len() {
                assert(all[i] == before[i]);
            }
        }
    }
}

proof fn lemma_pieces_hold_no_slash(s: Seq<char>)
    ensures
        forall|i: int| 0 <= i < pieces(s, '/').len() ==> !(#[trigger] pieces(s, '/')[i]).contains('/'),
    decreases s.len(),
{
    if s.len() > 0 {
        let before = pieces(s.drop_last(), '/');
        lemma_pieces_hold_no_slash(s.drop_last());
        lemma_pieces_nonempty(s.drop_last(), '/');
        assert forall|i: int| 0 <= i < pieces(s, '/').len() implies !(#[trigger] pieces(
            s,
            '/',
        )[i]).contains('/') by {
            if s.last() == '/' {
                if i < before.len() {
                    assert(pieces(s, '/')[i] == before[i]);
                }
            } else if i < before.len() - 1 {
                assert(pieces(s, '/')[i] == before[i]);
            } else {
                let old_last = before[before.len() - 1];
                let grown = old_last.push(s.last());
                assert(pieces(s, '/')[i] == grown);
                if grown.contains('/') {
                    let k = choose|k: int| 0 <= k < grown.len() && grown[k] == '/';
                    assert(old_last[k] == '/');
                }
            }
        }
    }
}

/// `path` with the name of its file, where it has one, replaced by `name`.
pub fn with_file_name(path: &str, name: &str) -> (r: String)
    requires
        name@.len() > 0,
        !name@.contains('/'),
        name@ != "."@,
    ensures
        rooted(r@) == rooted(path@),
        names(r@) == (if file_name(names(path@)) is Some {
            names(path@).drop_last()
        } else {
            names(path@)
        }).push(name@),
{
    let root = is_rooted(path);
    let mut ns = names_of(path);
    let n: usize = ns.len();
    let ghost all = texts(ns@);
    assert(n > 0 ==> all.last() == ns@[n - 1]@);
    if n > 0 && is_proper(ns[n - 1].as_str()) {
        let _ = ns.pop();
        assert(texts(ns@) =~= all.drop_last());
    }
    let ghost kept = texts(ns@);
    ns.push(name.to_owned());
    assert(texts(ns@) =~= kept.push(name@));
    proof {
        lemma_pieces_hold_no_slash(path@);
        lemma_names_nameable(pieces(path@, '/'), root);
        assert forall|i: int| 0 <= i < texts(ns@).len() implies {
            &&& (#[trigger] texts(ns@)[i]).len() > 0
            &&& !texts(ns@)[i].contains('/')
            &&& texts(ns@)[i] == "."@ ==> !root && i == 0
        } by {
            if i < kept.len() {
                assert(texts(ns@)[i] == all[i]);
            }
        }
        law_spelling_keeps_names(texts(ns@), root);
    }
    let tail = join(&ns, "/");
    if root {
        concat("/", tail.as_str())
    } else {
        assert(spelled(texts(ns@), false) =~= tail@);
        tail
    }
}

} // verus!
