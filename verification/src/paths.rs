//! Unix path arithmetic on strings.
//!
//! Paths are kept as strings whose view is their sequence of characters.
//! `join` follows `Path::join`: an absolute right side replaces the left
//! one, and a separator is inserted unless the left side is empty or
//! already ends with one.
use vstd::prelude::*;
use crate::text::{push_str, split, split_str, starts_with, starts_with_str, views};

verus! {

/// `Path::new(base).join(rel)` on Unix.
pub open spec fn path_join(base: Seq<char>, rel: Seq<char>) -> Seq<char> {
    if rel.len() > 0 && rel[0] == '/' {
        rel
    } else if base.len() > 0 && base.last() != '/' {
        base + seq!['/'] + rel
    } else {
        base + rel
    }
}

/// `Path::new(base).join(rel)` on Unix.
pub fn join(base: &str, rel: &str) -> (r: String)
    ensures
        r@ == path_join(base@, rel@),
{
    let rel_abs = rel.unicode_len() > 0 && rel.get_char(0) == '/';
    if rel_abs {
        return rel.to_owned();
    }
    let n = base.unicode_len();
    if n > 0 && base.get_char(n - 1) != '/' {
        let mut r = crate::text::concat(base, "/");
        proof {
            reveal_strlit("/");
        }
        push_str(&mut r, rel);
        assert(r@ =~= base@ + seq!['/'] + rel@);
        r
    } else {
        crate::text::concat(base, rel)
    }
}

// ---------------------------------------------------------------------------
// Components
// ---------------------------------------------------------------------------

/// The path parts that `Path::components` yields from the pieces of a
/// path split at `/`: empty pieces and `.` are dropped.
pub open spec fn normal_parts(parts: Seq<Seq<char>>) -> Seq<Seq<char>>
    decreases parts.len(),
{
    if parts.len() == 0 {
        Seq::empty()
    } else {
        let prev = normal_parts(parts.drop_last());
        let p = parts.last();
        if p.len() == 0 || p == "."@ {
            prev
        } else {
            prev.push(p)
        }
    }
}

/// `Path::components` on Unix, each as its text: the root `/` or a leading
/// `.` first, then the other parts without empty ones and `.`.
pub open spec fn components(p: Seq<char>) -> Seq<Seq<char>> {
    let lead: Seq<Seq<char>> = if p.len() > 0 && p[0] == '/' {
        seq!["/"@]
    } else if p == "."@ || starts_with(p, "./"@) {
        seq!["."@]
    } else {
        Seq::empty()
    };
    lead + normal_parts(split(p, '/'))
}

/// A path's components joined with `/`.
pub open spec fn slash_path(p: Seq<char>) -> Seq<char> {
    crate::text::join(components(p), "/"@)
}

/// The components of `path` after those of `base`, when `base`'s
/// components start `path`'s (`Path::strip_prefix`).
pub open spec fn strip_components(path: Seq<char>, base: Seq<char>) -> Option<Seq<Seq<char>>> {
    let cp = components(path);
    let cb = components(base);
    if cb.len() <= cp.len() && cp.subrange(0, cb.len() as int) == cb {
        Some(cp.subrange(cb.len() as int, cp.len() as int))
    } else {
        None
    }
}

/// The components of a path.
pub fn path_components(p: &str) -> (r: Vec<String>)
    ensures
        views(r@) == components(p@),
{
    let parts = split_str(p, '/');
    let mut r: Vec<String> = Vec::new();
    let c = crate::text::to_chars(p);
    if c.len() > 0 && c[0] == '/' {
        r.push("/".to_owned());
    } else if p.to_owned() == ".".to_owned() || starts_with_str(p, "./") {
        r.push(".".to_owned());
    }
    let ghost lead = views(r@);
    assert(lead == components(p@).subrange(0, lead.len() as int)) by {
        assert(views(r@) =~= if p@.len() > 0 && p@[0] == '/' {
            seq!["/"@]
        } else if p@ == "."@ || starts_with(p@, "./"@) {
            seq!["."@]
        } else {
            Seq::<Seq<char>>::empty()
        });
    }
    let mut i: usize = 0;
    assert(views(parts@).subrange(0, 0) =~= Seq::<Seq<char>>::empty());
    while i < parts.len()
        invariant
            i <= parts@.len(),
            views(parts@) == split(p@, '/'),
            lead.len() <= views(r@).len(),
            views(r@) == lead + normal_parts(views(parts@).subrange(0, i as int)),
            lead == (if p@.len() > 0 && p@[0] == '/' {
                seq!["/"@]
            } else if p@ == "."@ || starts_with(p@, "./"@) {
                seq!["."@]
            } else {
                Seq::<Seq<char>>::empty()
            }),
        decreases parts.len() - i,
    {
        let ghost prev = views(parts@).subrange(0, i as int);
        assert(views(parts@).subrange(0, i + 1).drop_last() =~= prev);
        assert(views(parts@)[i as int] == parts@[i as int]@);
        let piece = &parts[i];
        if !(piece.as_str().unicode_len() == 0 || *piece == ".".to_owned()) {
            let ghost before = r@;
            r.push(piece.clone());
            assert(views(r@) =~= views(before).push(parts@[i as int]@));
        }
        i = i + 1;
    }
    assert(views(parts@).subrange(0, parts@.len() as int) =~= views(parts@));
    r
}


// ---------------------------------------------------------------------------
// Normal forms
// ---------------------------------------------------------------------------

/// One step of `normalize_path`: `.` is dropped, `..` removes the last
/// component unless there is none or it is the root (then `..` stays),
/// the root starts over, a name is added.
pub open spec fn normalize_step(acc: Seq<Seq<char>>, c: Seq<char>) -> Seq<Seq<char>> {
    if c == "."@ {
        acc
    } else if c == ".."@ {
        if acc.len() > 0 && acc.last() != "/"@ {
            acc.drop_last()
        } else {
            acc.push(".."@)
        }
    } else if c == "/"@ {
        seq!["/"@]
    } else {
        acc.push(c)
    }
}

/// The components of a path once `.` and `..` are resolved lexically.
pub open spec fn normalize_components(c: Seq<Seq<char>>) -> Seq<Seq<char>>
    decreases c.len(),
{
    if c.len() == 0 {
        c
    } else {
        normalize_step(normalize_components(c.drop_last()), c.last())
    }
}

/// The text of a path made of components: joined with `/`, after the root
/// when there is one.
pub open spec fn render_components(c: Seq<Seq<char>>) -> Seq<char> {
    if c.len() > 0 && c[0] == "/"@ {
        "/"@ + crate::text::join(c.drop_first(), "/"@)
    } else {
        crate::text::join(c, "/"@)
    }
}

/// The normalized components of a path.
pub open spec fn normal_components(p: Seq<char>) -> Seq<Seq<char>> {
    normalize_components(components(p))
}

/// Resolves `.` and `..` in a list of components.
fn normalize_list(c: &Vec<String>) -> (r: Vec<String>)
    ensures
        views(r@) == normalize_components(views(c@)),
{
    proof {
        reveal_strlit("/");
        reveal_strlit(".");
        reveal_strlit("..");
    }
    let ghost cv = views(c@);
    let mut r: Vec<String> = Vec::new();
    let mut i: usize = 0;
    assert(cv.subrange(0, 0) =~= Seq::<Seq<char>>::empty());
    while i < c.len()
        invariant
            i <= c@.len(),
            cv == views(c@),
            views(r@) == normalize_components(cv.subrange(0, i as int)),
        decreases c.len() - i,
    {
        assert(cv.subrange(0, i + 1).drop_last() =~= cv.subrange(0, i as int));
        assert(cv.subrange(0, i + 1).last() == c@[i as int]@);
        let x = &c[i];
        let ghost before = views(r@);
        if *x == ".".to_owned() {
        } else if *x == "..".to_owned() {
            if r.len() > 0 && r[r.len() - 1] != "/".to_owned() {
                assert(views(r@).last() == r@[r@.len() - 1]@);
                r.pop();
                assert(views(r@) =~= before.drop_last());
            } else {
                r.push("..".to_owned());
                assert(views(r@) =~= before.push(".."@));
            }
        } else if *x == "/".to_owned() {
            r.clear();
            r.push("/".to_owned());
            assert(views(r@) =~= seq!["/"@]);
        } else {
            r.push(x.clone());
            assert(views(r@) =~= before.push(x@));
        }
        i = i + 1;
    }
    assert(cv.subrange(0, c@.len() as int) =~= cv);
    r
}

/// The text of a list of components.
fn render_list(c: &Vec<String>) -> (r: String)
    ensures
        r@ == render_components(views(c@)),
{
    proof {
        reveal_strlit("/");
    }
    if c.len() > 0 && c[0] == "/".to_owned() {
        let mut rest: Vec<String> = Vec::new();
        let mut i: usize = 1;
        while i < c.len()
            invariant
                1 <= i <= c@.len(),
                views(rest@) == views(c@).subrange(1, i as int),
            decreases c.len() - i,
        {
            crate::text::push_clone(&mut rest, &c[i]);
            assert(views(c@).subrange(1, i + 1) =~= views(c@).subrange(1, i as int).push(c@[i as int]@));
            i = i + 1;
        }
        assert(views(c@).subrange(1, c@.len() as int) =~= views(c@).drop_first());
        let joined = crate::text::join_strs(&rest, "/");
        crate::text::concat("/", joined.as_str())
    } else {
        crate::text::join_strs(c, "/")
    }
}

/// `path` with `.` and `..` resolved without looking at the file system.
pub fn normalize_path(path: &str) -> (r: String)
    ensures
        r@ == render_components(normal_components(path@)),
{
    let c = path_components(path);
    let n = normalize_list(&c);
    render_list(&n)
}

/// `path` is `parent` or lies under it, once both are normalized:
/// `parent`'s normalized components start `path`'s.
pub open spec fn spec_same_or_child(path: Seq<char>, parent: Seq<char>) -> bool {
    let a = normal_components(path);
    let b = normal_components(parent);
    b.len() <= a.len() && a.subrange(0, b.len() as int) == b
}

/// `path` is `parent` or lies under it.
pub fn is_same_or_child(path: &str, parent: &str) -> (b: bool)
    ensures
        b == spec_same_or_child(path@, parent@),
{
    let a = normalize_list(&path_components(path));
    let p = normalize_list(&path_components(parent));
    if p.len() > a.len() {
        return false;
    }
    let mut i: usize = 0;
    while i < p.len()
        invariant
            p@.len() <= a@.len(),
            i <= p@.len(),
            views(a@) == normal_components(path@),
            views(p@) == normal_components(parent@),
            forall|k: int| 0 <= k < i ==> views(a@)[k] == views(p@)[k],
        decreases p.len() - i,
    {
        if a[i] != p[i] {
            assert(views(a@)[i as int] == a@[i as int]@ && views(p@)[i as int] == p@[i as int]@);
            assert(views(a@).subrange(0, p@.len() as int)[i as int] != views(p@)[i as int]);
            return false;
        }
        assert(views(a@)[i as int] == a@[i as int]@ && views(p@)[i as int] == p@[i as int]@);
        i = i + 1;
    }
    assert(views(a@).subrange(0, p@.len() as int) =~= views(p@));
    true
}

/// The path names a file with extension `java` (`Path::extension`): its
/// last component is a name with a `.` after its first character and
/// `java` after its last `.`.
pub open spec fn spec_java_file(path: Seq<char>) -> bool {
    let c = components(path);
    &&& c.len() > 0
    &&& component_is_name(c.last())
    &&& c.last().len() > 5
    &&& crate::text::ends_with(c.last(), ".java"@)
}

/// A component that is a name, not the root, `.` or `..`.
pub open spec fn component_is_name(c: Seq<char>) -> bool {
    c != "/"@ && c != "."@ && c != ".."@
}

/// The path has the extension `java`.
pub fn has_java_extension(path: &str) -> (b: bool)
    ensures
        b == spec_java_file(path@),
{
    proof {
        reveal_strlit("/");
        reveal_strlit(".");
        reveal_strlit("..");
        reveal_strlit(".java");
    }
    let c = path_components(path);
    if c.len() == 0 {
        return false;
    }
    let last = &c[c.len() - 1];
    assert(views(c@).last() == last@);
    if *last == "/".to_owned() || *last == ".".to_owned() || *last == "..".to_owned() {
        return false;
    }
    last.as_str().unicode_len() > 5 && crate::text::ends_with_str(last.as_str(), ".java")
}

/// The normalized components of `path`.
pub fn normal_list_of(path: &str) -> (r: Vec<String>)
    ensures
        views(r@) == normal_components(path@),
{
    normalize_list(&path_components(path))
}

/// The two lists hold the same components.
pub fn same_components(a: &Vec<String>, b: &Vec<String>) -> (r: bool)
    ensures
        r == (views(a@) == views(b@)),
{
    if a.len() != b.len() {
        return false;
    }
    let mut i: usize = 0;
    while i < a.len()
        invariant
            a@.len() == b@.len(),
            i <= a@.len(),
            forall|k: int| 0 <= k < i ==> views(a@)[k] == views(b@)[k],
        decreases a.len() - i,
    {
        assert(views(a@)[i as int] == a@[i as int]@ && views(b@)[i as int] == b@[i as int]@);
        if a[i] != b[i] {
            return false;
        }
        i = i + 1;
    }
    assert(views(a@) =~= views(b@));
    true
}

} // verus!
