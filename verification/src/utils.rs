//! Module ids and identifier-safe names.

use crate::text::{from_chars, to_chars};
use vstd::prelude::*;
use vstd::string::*;

verus! {

/// Whether `part`, which stands between two slashes of a path, names
/// something: it is neither empty nor the dot that stands for the directory
/// itself.
pub open spec fn is_component(part: Seq<char>) -> bool {
    part.len() > 0 && part != seq!['.']
}

/// The components of `path` that are closed by a slash, and the characters
/// after its last slash.
pub open spec fn scan_path(path: Seq<char>) -> (Seq<Seq<char>>, Seq<char>)
    decreases path.len(),
{
    if path.len() == 0 {
        (Seq::empty(), Seq::empty())
    } else {
        let (done, open) = scan_path(path.drop_last());
        if path.last() == '/' {
            if is_component(open) {
                (done.push(open), Seq::empty())
            } else {
                (done, Seq::empty())
            }
        } else {
            (done, open.push(path.last()))
        }
    }
}

/// The components of `path`: what stands between its slashes, without empty
/// parts and dots. So `/a//b/./c` and `/a/b/c/` have the same components.
pub open spec fn components(path: Seq<char>) -> Seq<Seq<char>> {
    let (done, open) = scan_path(path);
    if is_component(open) {
        done.push(open)
    } else {
        done
    }
}

/// The components `parts` with a slash between each two.
pub open spec fn join_path(parts: Seq<Seq<char>>) -> Seq<char>
    decreases parts.len(),
{
    if parts.len() == 0 {
        Seq::empty()
    } else if parts.len() == 1 {
        parts[0]
    } else {
        join_path(parts.drop_last()) + seq!['/'] + parts.last()
    }
}

/// Whether `path` is absolute.
pub open spec fn is_absolute(path: Seq<char>) -> bool {
    path.len() > 0 && path[0] == '/'
}

/// Whether `path` names something strictly below the directory `root`: both
/// are absolute or both are not, and the components of the root are the
/// first components of the path, which has more.
pub open spec fn is_below(path: Seq<char>, root: Seq<char>) -> bool {
    let parts = components(path);
    let base = components(root);
    &&& is_absolute(path) == is_absolute(root)
    &&& base.len() < parts.len()
    &&& parts.take(base.len() as int) == base
}

/// The id of the module at `path` in a project rooted at `root`: for a file
/// below the root the components that lead to it from the root, for any other
/// file all its components, after a slash where the path is absolute.
pub open spec fn module_id_of(path: Seq<char>, root: Seq<char>) -> Seq<char> {
    if is_below(path, root) {
        join_path(components(path).skip(components(root).len() as int))
    } else if is_absolute(path) {
        seq!['/'] + join_path(components(path))
    } else {
        join_path(components(path))
    }
}

/// Whether `part` holds no slash.
pub open spec fn slash_free(part: Seq<char>) -> bool {
    forall|i: int| 0 <= i < part.len() ==> part[i] != '/'
}

/// Whether each of `parts` is a component without a slash.
pub open spec fn all_components(parts: Seq<Seq<char>>) -> bool {
    forall|k: int| 0 <= k < parts.len() ==> is_component(#[trigger] parts[k]) && slash_free(parts[k])
}

proof fn lemma_scan_path(path: Seq<char>)
    ensures
        all_components(scan_path(path).0),
        slash_free(scan_path(path).1),
    decreases path.len(),
{
    if path.len() > 0 {
        lemma_scan_path(path.drop_last());
    }
}

/// The components of a path name something and hold no slash.
pub proof fn lemma_components(path: Seq<char>)
    ensures
        all_components(components(path)),
{
    lemma_scan_path(path);
}

proof fn lemma_join_path_shape(parts: Seq<Seq<char>>)
    requires
        all_components(parts),
    ensures
        parts.len() > 0 ==> join_path(parts).len() > 0 && join_path(parts)[0] != '/',
        parts.len() == 0 ==> join_path(parts).len() == 0,
    decreases parts.len(),
{
    if parts.len() == 1 {
        assert(is_component(parts[0]) && slash_free(parts[0]));
    } else if parts.len() > 1 {
        let shorter = parts.drop_last();
        assert forall|k: int| 0 <= k < shorter.len() implies is_component(#[trigger] shorter[k])
            && slash_free(shorter[k]) by {
            assert(shorter[k] == parts[k]);
        }
        lemma_join_path_shape(shorter);
    }
}

/// Two texts that end in a slash and a part without slashes are the same only
/// if the parts are the same and what stands before them is.
proof fn lemma_last_part(u: Seq<char>, x: Seq<char>, v: Seq<char>, y: Seq<char>)
    requires
        slash_free(x),
        slash_free(y),
        u + seq!['/'] + x == v + seq!['/'] + y,
    ensures
        u == v,
        x == y,
{
    let left = u + seq!['/'] + x;
    let right = v + seq!['/'] + y;
    assert(left.len() == u.len() + 1 + x.len());
    assert(right.len() == v.len() + 1 + y.len());
    if x.len() < y.len() {
        let at = u.len() as int;
        assert(left[at] == '/');
        assert(right[at] == y[at - v.len() - 1]);
    } else if y.len() < x.len() {
        let at = v.len() as int;
        assert(right[at] == '/');
        assert(left[at] == x[at - u.len() - 1]);
    } else {
        assert(u =~= v) by {
            assert forall|i: int| 0 <= i < u.len() implies u[i] == v[i] by {
                assert(left[i] == u[i]);
                assert(right[i] == v[i]);
            }
        }
        assert(x =~= y) by {
            assert forall|i: int| 0 <= i < x.len() implies x[i] == y[i] by {
                assert(left[u.len() + 1 + i] == x[i]);
                assert(right[v.len() + 1 + i] == y[i]);
            }
        }
    }
}

/// Different lists of components are joined to different texts.
pub proof fn lemma_join_path_injective(a: Seq<Seq<char>>, b: Seq<Seq<char>>)
    requires
        all_components(a),
        all_components(b),
        join_path(a) == join_path(b),
    ensures
        a == b,
    decreases a.len(),
{
    lemma_join_path_shape(a);
    lemma_join_path_shape(b);
    if a.len() == 0 || b.len() == 0 {
        assert(a =~= b);
    } else if a.len() == 1 && b.len() == 1 {
        assert(a =~= b);
    } else if a.len() == 1 {
        let u = join_path(b.drop_last());
        let at = u.len() as int;
        assert(join_path(b)[at] == '/');
        assert(slash_free(a[0]));
    } else if b.len() == 1 {
        let u = join_path(a.drop_last());
        let at = u.len() as int;
        assert(join_path(a)[at] == '/');
        assert(slash_free(b[0]));
    } else {
        let a0 = a.drop_last();
        let b0 = b.drop_last();
        assert(slash_free(a[a.len() - 1]) && slash_free(b[b.len() - 1]));
        lemma_last_part(join_path(a0), a.last(), join_path(b0), b.last());
        assert forall|k: int| 0 <= k < a0.len() implies is_component(#[trigger] a0[k])
            && slash_free(a0[k]) by {
            assert(a0[k] == a[k]);
        }
        assert forall|k: int| 0 <= k < b0.len() implies is_component(#[trigger] b0[k])
            && slash_free(b0[k]) by {
            assert(b0[k] == b[k]);
        }
        lemma_join_path_injective(a0, b0);
        assert(a =~= a0.push(a.last()));
        assert(b =~= b0.push(b.last()));
    }
}

/// The id of a file below the root is relative and not empty; the id of any
/// other absolute path is absolute. Paths with the same components have the
/// same id.
pub proof fn lemma_module_id_shape(path: Seq<char>, root: Seq<char>)
    ensures
        is_below(path, root) ==> module_id_of(path, root).len() > 0 && !is_absolute(
            module_id_of(path, root),
        ),
        !is_below(path, root) && is_absolute(path) ==> is_absolute(module_id_of(path, root)),
{
    lemma_components(path);
    let parts = components(path);
    if is_below(path, root) {
        let rest = parts.skip(components(root).len() as int);
        assert forall|k: int| 0 <= k < rest.len() implies is_component(#[trigger] rest[k])
            && slash_free(rest[k]) by {
            assert(rest[k] == parts[k + components(root).len()]);
        }
        lemma_join_path_shape(rest);
    }
}

/// Two absolute paths have the same id exactly when they have the same
/// components, that is, when they are spellings of one path.
pub proof fn lemma_module_id_injective(p: Seq<char>, q: Seq<char>, root: Seq<char>)
    requires
        is_absolute(p),
        is_absolute(q),
    ensures
        module_id_of(p, root) == module_id_of(q, root) <==> components(p) == components(q),
{
    let cp = components(p);
    let cq = components(q);
    let n = components(root).len() as int;
    lemma_components(p);
    lemma_components(q);
    lemma_module_id_shape(p, root);
    lemma_module_id_shape(q, root);
    if module_id_of(p, root) == module_id_of(q, root) {
        if is_below(p, root) && is_below(q, root) {
            let rp = cp.skip(n);
            let rq = cq.skip(n);
            assert forall|k: int| 0 <= k < rp.len() implies is_component(#[trigger] rp[k])
                && slash_free(rp[k]) by {
                assert(rp[k] == cp[k + n]);
            }
            assert forall|k: int| 0 <= k < rq.len() implies is_component(#[trigger] rq[k])
                && slash_free(rq[k]) by {
                assert(rq[k] == cq[k + n]);
            }
            lemma_join_path_injective(rp, rq);
            assert(cp =~= cp.take(n) + rp);
            assert(cq =~= cq.take(n) + rq);
        } else if !is_below(p, root) && !is_below(q, root) {
            let jp = join_path(cp);
            let jq = join_path(cq);
            assert(jp =~= (seq!['/'] + jp).skip(1));
            assert(jq =~= (seq!['/'] + jq).skip(1));
            lemma_join_path_injective(cp, cq);
        }
    }
}

/// The views of a list of components, in order.
pub open spec fn part_views(parts: Seq<Vec<char>>) -> Seq<Seq<char>> {
    parts.map_values(|p: Vec<char>| p@)
}

/// Whether `part` names something.
fn names_something(part: &Vec<char>) -> (r: bool)
    ensures
        r == is_component(part@),
{
    if part.len() == 0 {
        false
    } else if part.len() == 1 && part[0] == '.' {
        assert(part@ =~= seq!['.']);
        false
    } else {
        assert(part@ != seq!['.']) by {
            if part@.len() == 1 {
                assert(part@[0] != seq!['.'][0]);
            } else {
                assert(seq!['.'].len() == 1);
            }
        }
        true
    }
}

/// The components of `path`.
fn path_components(path: &Vec<char>) -> (parts: Vec<Vec<char>>)
    ensures
        part_views(parts@) == components(path@),
{
    let mut done: Vec<Vec<char>> = Vec::new();
    let mut open: Vec<char> = Vec::new();
    let mut i: usize = 0;
    assert(path@.take(0) =~= Seq::empty());
    assert(part_views(done@) =~= Seq::empty());
    while i < path.len()
        invariant
            i <= path.len(),
            (part_views(done@), open@) == scan_path(path@.take(i as int)),
        decreases path.len() - i,
    {
        let ghost before = part_views(done@);
        let ghost text = open@;
        proof {
            assert(path@.take(i + 1).drop_last() =~= path@.take(i as int));
            assert(path@.take(i + 1).last() == path@[i as int]);
        }
        if path[i] == '/' {
            if names_something(&open) {
                done.push(open);
                assert(part_views(done@) =~= before.push(text));
            }
            open = Vec::new();
        } else {
            open.push(path[i]);
        }
        i += 1;
    }
    assert(path@.take(path.len() as int) =~= path@);
    if names_something(&open) {
        let ghost before = part_views(done@);
        let ghost text = open@;
        done.push(open);
        assert(part_views(done@) =~= before.push(text));
    }
    done
}

/// Whether the first `n` of `parts` are the components `base`.
fn starts_with_parts(parts: &Vec<Vec<char>>, base: &Vec<Vec<char>>) -> (r: bool)
    requires
        base.len() <= parts.len(),
    ensures
        r == (part_views(parts@).take(base.len() as int) == part_views(base@)),
{
    let ghost left = part_views(parts@).take(base.len() as int);
    let ghost right = part_views(base@);
    let mut k: usize = 0;
    while k < base.len()
        invariant
            k <= base.len(),
            base.len() <= parts.len(),
            left == part_views(parts@).take(base.len() as int),
            right == part_views(base@),
            forall|j: int| 0 <= j < k ==> left[j] == right[j],
        decreases base.len() - k,
    {
        let a = &parts[k];
        let b = &base[k];
        assert(left[k as int] == a@);
        assert(right[k as int] == b@);
        if a.len() != b.len() {
            return false;
        }
        if !has_prefix(a, b, a.len()) {
            assert(a@.take(a.len() as int) =~= a@);
            assert(b@.take(a.len() as int) =~= b@);
            return false;
        }
        assert(a@.take(a.len() as int) =~= a@);
        assert(b@.take(a.len() as int) =~= b@);
        k += 1;
    }
    assert(left =~= right);
    true
}

/// Whether `path` starts with the first `n` characters of `root`.
fn has_prefix(path: &Vec<char>, root: &Vec<char>, n: usize) -> (b: bool)
    requires
        n <= root.len(),
        n <= path.len(),
    ensures
        b == (path@.take(n as int) == root@.take(n as int)),
{
    let mut i: usize = 0;
    while i < n
        invariant
            i <= n,
            n <= root.len(),
            n <= path.len(),
            path@.take(i as int) == root@.take(i as int),
        decreases n - i,
    {
        if path[i] != root[i] {
            assert(path@.take(n as int)[i as int] != root@.take(n as int)[i as int]);
            return false;
        }
        assert(path@.take(i + 1) =~= path@.take(i as int).push(path@[i as int]));
        assert(root@.take(i + 1) =~= root@.take(i as int).push(root@[i as int]));
        i += 1;
    }
    true
}

/// Appends to `out` the components of `parts` from `from` on, with a slash
/// between each two.
fn push_joined(parts: &Vec<Vec<char>>, from: usize, out: &mut Vec<char>)
    requires
        from <= parts.len(),
    ensures
        final(out)@ == old(out)@ + join_path(part_views(parts@).skip(from as int)),
{
    let ghost views = part_views(parts@);
    let ghost before = out@;
    let mut k: usize = from;
    assert(views.subrange(from as int, from as int) =~= Seq::empty());
    assert(out@ =~= before + join_path(views.subrange(from as int, k as int)));
    while k < parts.len()
        invariant
            from <= k <= parts.len(),
            views == part_views(parts@),
            out@ == before + join_path(views.subrange(from as int, k as int)),
        decreases parts.len() - k,
    {
        let ghost shorter = views.subrange(from as int, k as int);
        let ghost longer = views.subrange(from as int, k + 1);
        let ghost start = out@;
        if k > from {
            out.push('/');
        }
        let part = &parts[k];
        let ghost lead = out@;
        let mut i: usize = 0;
        while i < part.len()
            invariant
                i <= part.len(),
                out@ == lead + part@.take(i as int),
            decreases part.len() - i,
        {
            out.push(part[i]);
            assert(part@.take(i + 1) =~= part@.take(i as int).push(part@[i as int]));
            assert(lead + part@.take(i + 1) =~= (lead + part@.take(i as int)).push(
                part@[i as int],
            ));
            i += 1;
        }
        proof {
            assert(part@.take(part.len() as int) =~= part@);
            assert(longer.drop_last() =~= shorter);
            assert(longer.last() == part@);
            if k == from {
                assert(longer.len() == 1);
                assert(longer[0] == part@);
                assert(join_path(shorter) =~= Seq::empty());
                assert(out@ =~= before + join_path(longer));
            } else {
                assert(longer.len() > 1);
                assert(out@ =~= before + (join_path(shorter) + seq!['/'] + part@));
            }
        }
        k += 1;
    }
    assert(views.subrange(from as int, parts.len() as int) =~= views.skip(from as int));
}

/// Derives the id of the module stored at `path` from the project root: the
/// components that lead from `project_root` to the file when it lies below the
/// root, else all its components, after a slash for an absolute path. Empty
/// parts and dots in the paths make no difference.
pub fn create_module_id(path: &str, project_root: &str) -> (id: String)
    ensures
        id@ == module_id_of(path@, project_root@),
{
    let p = to_chars(path);
    let r = to_chars(project_root);
    let parts = path_components(&p);
    let base = path_components(&r);
    let path_is_absolute = p.len() > 0 && p[0] == '/';
    let root_is_absolute = r.len() > 0 && r[0] == '/';
    let mut id: Vec<char> = Vec::new();
    if path_is_absolute == root_is_absolute && base.len() < parts.len() && starts_with_parts(
        &parts,
        &base,
    ) {
        push_joined(&parts, base.len(), &mut id);
        assert(id@ =~= module_id_of(path@, project_root@));
    } else {
        if path_is_absolute {
            id.push('/');
        }
        push_joined(&parts, 0, &mut id);
        assert(part_views(parts@).skip(0) =~= part_views(parts@));
        assert(id@ =~= module_id_of(path@, project_root@));
    }
    from_chars(&id)
}

/// The character that stands for `c` in an identifier: an underscore for a
/// slash, a dot or a hyphen, and `c` itself otherwise.
pub open spec fn strip_char(c: char) -> char {
    if c == '/' || c == '.' || c == '-' {
        '_'
    } else {
        c
    }
}

/// Turns a request string into a name usable as an identifier by replacing
/// every slash, dot and hyphen with an underscore.
pub fn strip_invalid_chars(value: &str) -> (r: String)
    ensures
        r@ == value@.map_values(|c: char| strip_char(c)),
{
    let v = to_chars(value);
    let mut out: Vec<char> = Vec::new();
    let mut i: usize = 0;
    while i < v.len()
        invariant
            i <= v.len(),
            out@ == v@.take(i as int).map_values(|c: char| strip_char(c)),
        decreases v.len() - i,
    {
        let c = v[i];
        let d = if c == '/' || c == '.' || c == '-' {
            '_'
        } else {
            c
        };
        out.push(d);
        assert(out@ =~= v@.take(i + 1).map_values(|c: char| strip_char(c)));
        i += 1;
    }
    assert(v@.take(v.len() as int) =~= v@);
    from_chars(&out)
}

/// The position of the last slash of `path`, or -1 where it has none.
pub open spec fn last_slash(path: Seq<char>) -> int
    decreases path.len(),
{
    if path.len() == 0 {
        -1
    } else if path.last() == '/' {
        path.len() - 1
    } else {
        last_slash(path.drop_last())
    }
}

/// The directory that holds the file `path`: what stands before the last
/// slash of the path, the root for a file directly below the root, and
/// nothing for a path without a slash.
pub open spec fn parent_of(path: Seq<char>) -> Seq<char> {
    let at = last_slash(path);
    if at < 0 {
        Seq::empty()
    } else if at == 0 {
        seq!['/']
    } else {
        path.take(at)
    }
}

/// The directory that holds the file `path`.
pub fn parent_dir(path: &str) -> (dir: String)
    ensures
        dir@ == parent_of(path@),
{
    let p = to_chars(path);
    let mut n: usize = p.len();
    assert(p@.take(n as int) =~= p@);
    while n > 0 && p[n - 1] != '/'
        invariant
            n <= p.len(),
            last_slash(p@.take(n as int)) == last_slash(p@),
        decreases n,
    {
        assert(p@.take(n as int).drop_last() =~= p@.take(n - 1));
        n -= 1;
    }
    proof {
        if n == 0 {
            assert(p@.take(0).len() == 0);
        } else {
            assert(p@.take(n as int).last() == p@[n - 1]);
            assert(last_slash(p@) == n - 1);
        }
    }
    if n == 0 {
        String::new()
    } else if n == 1 {
        let dir = String::from_str("/");
        proof {
            reveal_strlit("/");
            assert(dir@ =~= seq!['/']);
        }
        dir
    } else {
        let mut dir: Vec<char> = Vec::new();
        let mut i: usize = 0;
        while i < n - 1
            invariant
                i <= n - 1,
                n <= p.len(),
                dir@ == p@.take(i as int),
            decreases n - 1 - i,
        {
            dir.push(p[i]);
            assert(p@.take(i + 1) =~= p@.take(i as int).push(p@[i as int]));
            i += 1;
        }
        from_chars(&dir)
    }
}

/// The file extensions that a request may leave out, in the order in which
/// they are tried.
pub open spec fn resolve_extensions_spec() -> Seq<Seq<char>> {
    seq!["ts"@, "tsx"@, "js"@, "mjs"@, "json"@]
}

/// The file extensions that a request may leave out, in the order in which
/// they are tried.
pub fn resolve_extensions() -> (extensions: Vec<String>)
    ensures
        crate::text::texts(extensions@) == resolve_extensions_spec(),
{
    let mut extensions: Vec<String> = Vec::new();
    extensions.push(String::from_str("ts"));
    extensions.push(String::from_str("tsx"));
    extensions.push(String::from_str("js"));
    extensions.push(String::from_str("mjs"));
    extensions.push(String::from_str("json"));
    assert(crate::text::texts(extensions@) =~= resolve_extensions_spec());
    extensions
}

} // verus!
