//! Unix paths as strings, read the way `std::path::Path` reads them: as a
//! sequence of components (the root, `.`, `..` and names), where repeated
//! separators and inner `.` parts do not count.
use vstd::prelude::*;
use crate::text::push_char;
use vstd::string::StringExecFns;

verus! {

/// One component of a path.
pub enum PathPart {
    /// The leading `/` of an absolute path.
    Root,
    /// A leading `.` of a relative path.
    Cur,
    /// `..`
    Up,
    /// Any other part between separators.
    Name(Seq<char>),
}

/// The text between separators: `a//b/` splits into `a`, ``, `b`, ``.
pub open spec fn split_parts(s: Seq<char>) -> Seq<Seq<char>>
    decreases s.len(),
{
    if s.len() == 0 {
        seq![Seq::empty()]
    } else {
        let p = split_parts(s.drop_last());
        if s.last() == '/' {
            p.push(Seq::empty())
        } else {
            p.update(p.len() - 1, p.last().push(s.last()))
        }
    }
}

pub open spec fn is_dot(seg: Seq<char>) -> bool {
    seg.len() == 1 && seg[0] == '.'
}

pub open spec fn is_dot_dot(seg: Seq<char>) -> bool {
    seg.len() == 2 && seg[0] == '.' && seg[1] == '.'
}

/// What a piece between separators contributes: nothing for an empty piece
/// or `.`, `..` for `..`, a name otherwise.
pub open spec fn part_of(seg: Seq<char>) -> Seq<PathPart> {
    if seg.len() == 0 || is_dot(seg) {
        Seq::empty()
    } else if is_dot_dot(seg) {
        seq![PathPart::Up]
    } else {
        seq![PathPart::Name(seg)]
    }
}

pub open spec fn parts_of(segs: Seq<Seq<char>>) -> Seq<PathPart>
    decreases segs.len(),
{
    if segs.len() == 0 {
        Seq::empty()
    } else {
        parts_of(segs.drop_last()) + part_of(segs.last())
    }
}

/// The component before the first piece: the root of an absolute path, or
/// the `.` that a relative path starts with.
pub open spec fn leading_part(s: Seq<char>) -> Seq<PathPart> {
    if s.len() > 0 && s[0] == '/' {
        seq![PathPart::Root]
    } else if s.len() > 0 && s[0] == '.' && (s.len() == 1 || s[1] == '/') {
        seq![PathPart::Cur]
    } else {
        Seq::empty()
    }
}

/// The components of a path, as `Path::components` yields them.
pub open spec fn path_parts(s: Seq<char>) -> Seq<PathPart> {
    leading_part(s) + parts_of(split_parts(s))
}

/// `base` is `path` itself or one of its ancestors: `path.strip_prefix(base)`
/// succeeds.
pub open spec fn is_prefix_path(base: Seq<char>, path: Seq<char>) -> bool {
    let b = path_parts(base);
    let p = path_parts(path);
    b.len() <= p.len() && p.take(b.len() as int) == b
}

/// Writes components back as a path: the root as `/`, the other components
/// separated by `/`.
pub open spec fn render_parts(parts: Seq<PathPart>) -> Seq<char>
    decreases parts.len(),
{
    if parts.len() == 0 {
        Seq::empty()
    } else {
        let prev = render_parts(parts.drop_last());
        let sep: Seq<char> = if parts.len() == 1 || parts[parts.len() - 2] is Root {
            Seq::empty()
        } else {
            seq!['/']
        };
        prev + sep + match parts.last() {
            PathPart::Root => seq!['/'],
            PathPart::Cur => seq!['.'],
            PathPart::Up => seq!['.', '.'],
            PathPart::Name(n) => n,
        }
    }
}

/// The parent directory, as `Path::parent` finds it: the path without its
/// last component, when that component is a name, `.` or `..`; none for the
/// root or an empty path. It is written back in normal form (`/a//b/c` gives
/// `/a/b`), which names the same directory as the slice of the input that
/// `Path::parent` returns (`/a//b`).
pub open spec fn spec_parent(s: Seq<char>) -> Option<Seq<char>> {
    let p = path_parts(s);
    if p.len() == 0 || p.last() is Root {
        None
    } else {
        Some(render_parts(p.drop_last()))
    }
}

/// `Path::file_name`: the last component when it is a name.
pub open spec fn spec_file_name(s: Seq<char>) -> Option<Seq<char>> {
    let p = path_parts(s);
    if p.len() > 0 && p.last() is Name {
        Some(p.last()->Name_0)
    } else {
        None
    }
}

/// `PathBuf::join` with one more part: an absolute part replaces the path,
/// otherwise a separator is put between them unless the path is empty or
/// already ends with one.
pub open spec fn spec_join(dir: Seq<char>, part: Seq<char>) -> Seq<char> {
    if part.len() > 0 && part[0] == '/' {
        part
    } else if dir.len() == 0 || dir.last() == '/' {
        dir + part
    } else {
        dir + seq!['/'] + part
    }
}

// ---------------------------------------------------------------------------
// Executable components
// ---------------------------------------------------------------------------

/// One component of a path.
pub enum Component {
    RootDir,
    CurDir,
    ParentDir,
    Normal(String),
}

impl View for Component {
    type V = PathPart;

    open spec fn view(&self) -> PathPart {
        match self {
            Component::RootDir => PathPart::Root,
            Component::CurDir => PathPart::Cur,
            Component::ParentDir => PathPart::Up,
            Component::Normal(s) => PathPart::Name(s@),
        }
    }
}

pub open spec fn parts_view(v: Seq<Component>) -> Seq<PathPart> {
    v.map_values(|c: Component| c@)
}

/// Appends what one piece between separators contributes.
fn push_piece(out: &mut Vec<Component>, seg: Vec<char>)
    ensures
        parts_view(final(out)@) == parts_view(old(out)@) + part_of(seg@),
{
    let n = seg.len();
    if n == 0 || (n == 1 && seg[0] == '.') {
        assert(part_of(seg@) =~= Seq::<PathPart>::empty());
        assert(parts_view(out@) =~= parts_view(old(out)@) + part_of(seg@));
        return;
    }
    if n == 2 && seg[0] == '.' && seg[1] == '.' {
        out.push(Component::ParentDir);
        assert(parts_view(out@) =~= parts_view(old(out)@) + part_of(seg@));
        return;
    }
    let mut name = String::new();
    let mut i: usize = 0;
    while i < n
        invariant
            n == seg@.len(),
            0 <= i <= n,
            name@ == seg@.take(i as int),
        decreases n - i,
    {
        push_char(&mut name, seg[i]);
        assert(seg@.take(i + 1) =~= seg@.take(i as int).push(seg@[i as int]));
        i = i + 1;
    }
    assert(seg@.take(n as int) =~= seg@);
    out.push(Component::Normal(name));
    assert(parts_view(out@) =~= parts_view(old(out)@) + part_of(seg@));
}

/// `Path::components`.
pub fn components(path: &str) -> (parts: Vec<Component>)
    ensures
        parts_view(parts@) == path_parts(path@),
{
    let ghost s = path@;
    let mut out: Vec<Component> = Vec::new();
    let mut seg: Vec<char> = Vec::new();
    let mut first: Option<char> = None;
    let mut second: Option<char> = None;
    let mut count: usize = 0;
    for c in it: path.chars()
        invariant
            it.seq() == s,
            count == it.index() || count == 2,
            count <= it.index(),
            it.index() >= 1 ==> first == Some(s[0]),
            it.index() >= 2 ==> second == Some(s[1]),
            it.index() < 1 ==> first is None,
            it.index() < 2 ==> second is None,
            it.index() >= 2 ==> count == 2,
            parts_view(out@) == parts_of(split_parts(s.take(it.index())).drop_last()),
            seg@ == split_parts(s.take(it.index())).last(),
    {
        let ghost t = s.take(it.index());
        let ghost t1 = s.take(it.index() + 1);
        proof {
            assert(t1.drop_last() =~= t);
            assert(t1.last() == c);
            lemma_split_len(t);
        }
        if count == 0 {
            first = Some(c);
            count = 1;
        } else if count == 1 {
            second = Some(c);
            count = 2;
        }
        if c == '/' {
            let done = seg;
            seg = Vec::new();
            push_piece(&mut out, done);
            proof {
                let p = split_parts(t);
                assert(split_parts(t1) == p.push(Seq::empty()));
                assert(split_parts(t1).drop_last() =~= p);
                assert(p =~= p.drop_last().push(p.last()));
            }
        } else {
            seg.push(c);
            proof {
                let p = split_parts(t);
                assert(split_parts(t1) == p.update(p.len() - 1, p.last().push(c)));
                assert(split_parts(t1).drop_last() =~= p.drop_last());
            }
        }
    }
    proof {
        assert(s.take(s.len() as int) =~= s);
        lemma_split_len(s);
        let p = split_parts(s);
        assert(p =~= p.drop_last().push(p.last()));
    }
    let lead_root = first == Some('/');
    let lead_cur = first == Some('.') && (second.is_none() || second == Some('/'));
    push_piece(&mut out, seg);
    let mut parts: Vec<Component> = Vec::new();
    if lead_root {
        parts.push(Component::RootDir);
    } else if lead_cur {
        parts.push(Component::CurDir);
    }
    proof {
        assert(parts_view(parts@) =~= leading_part(s));
    }
    let ghost before = parts@;
    let ghost rest = out@;
    parts.append(&mut out);
    proof {
        assert(parts@ =~= before + rest);
        assert(parts_view(parts@) =~= parts_view(before) + parts_view(rest));
    }
    parts
}

proof fn lemma_split_len(s: Seq<char>)
    ensures
        split_parts(s).len() >= 1,
    decreases s.len(),
{
    if s.len() > 0 {
        lemma_split_len(s.drop_last());
    }
}

fn same_component(a: &Component, b: &Component) -> (r: bool)
    ensures
        r == (a@ == b@),
{
    match (a, b) {
        (Component::RootDir, Component::RootDir) => true,
        (Component::CurDir, Component::CurDir) => true,
        (Component::ParentDir, Component::ParentDir) => true,
        (Component::Normal(x), Component::Normal(y)) => x.eq(y),
        _ => false,
    }
}

/// Whether `base` is `path` itself or one of its ancestors, that is, whether
/// `path.strip_prefix(base)` succeeds.
pub fn is_ancestor_or_self(base: &str, path: &str) -> (r: bool)
    ensures
        r == is_prefix_path(base@, path@),
{
    let b = components(base);
    let p = components(path);
    let ghost bv = parts_view(b@);
    let ghost pv = parts_view(p@);
    if b.len() > p.len() {
        return false;
    }
    let mut i: usize = 0;
    while i < b.len()
        invariant
            b.len() <= p.len(),
            bv == parts_view(b@),
            pv == parts_view(p@),
            bv == path_parts(base@),
            pv == path_parts(path@),
            0 <= i <= b.len(),
            forall|j: int| 0 <= j < i ==> bv[j] == pv[j],
        decreases b.len() - i,
    {
        assert(bv[i as int] == b@[i as int]@);
        assert(pv[i as int] == p@[i as int]@);
        if !same_component(&b[i], &p[i]) {
            assert(pv.take(bv.len() as int)[i as int] != bv[i as int]);
            assert(pv.take(bv.len() as int) != bv);
            assert(!is_prefix_path(base@, path@));
            return false;
        }
        i = i + 1;
    }
    assert(pv.take(bv.len() as int) =~= bv);
    true
}

/// The text of one component.
pub open spec fn part_text(part: PathPart) -> Seq<char> {
    match part {
        PathPart::Root => seq!['/'],
        PathPart::Cur => seq!['.'],
        PathPart::Up => seq!['.', '.'],
        PathPart::Name(n) => n,
    }
}

fn push_component(s: &mut String, c: &Component)
    ensures
        final(s)@ == old(s)@ + part_text(c@),
{
    match c {
        Component::RootDir => {
            push_char(s, '/');
        },
        Component::CurDir => {
            push_char(s, '.');
        },
        Component::ParentDir => {
            push_char(s, '.');
            push_char(s, '.');
        },
        Component::Normal(n) => {
            s.append(n.as_str());
        },
    }
    assert(s@ =~= old(s)@ + part_text(c@));
}

/// Writes the first `k` components back as a path.
fn render_prefix(parts: &Vec<Component>, k: usize) -> (s: String)
    requires
        k <= parts.len(),
    ensures
        s@ == render_parts(parts_view(parts@).take(k as int)),
{
    let ghost v = parts_view(parts@);
    let mut s = String::new();
    let mut i: usize = 0;
    while i < k
        invariant
            k <= parts.len(),
            v == parts_view(parts@),
            0 <= i <= k,
            s@ == render_parts(v.take(i as int)),
        decreases k - i,
    {
        let ghost t1 = v.take(i + 1);
        proof {
            assert(t1.drop_last() =~= v.take(i as int));
            assert(t1.last() == v[i as int]);
            if i > 0 {
                assert(t1[t1.len() - 2] == v[i - 1]);
            }
        }
        if i > 0 {
            let root_before = match &parts[i - 1] {
                Component::RootDir => true,
                _ => false,
            };
            if !root_before {
                push_char(&mut s, '/');
            }
        }
        push_component(&mut s, &parts[i]);
        proof {
            assert(s@ =~= render_parts(t1));
        }
        i = i + 1;
    }
    s
}

/// The parent directory (see `spec_parent`), written in normal form.
pub fn parent(path: &str) -> (r: Option<String>)
    ensures
        match r {
            Some(p) => spec_parent(path@) == Some(p@),
            None => spec_parent(path@) is None,
        },
{
    let parts = components(path);
    let n = parts.len();
    if n == 0 {
        return None;
    }
    let last_is_root = match &parts[n - 1] {
        Component::RootDir => true,
        _ => false,
    };
    if last_is_root {
        return None;
    }
    let s = render_prefix(&parts, n - 1);
    assert(parts_view(parts@).take(n - 1) =~= parts_view(parts@).drop_last());
    Some(s)
}

/// `Path::file_name`.
pub fn file_name(path: &str) -> (r: Option<String>)
    ensures
        match r {
            Some(n) => spec_file_name(path@) == Some(n@),
            None => spec_file_name(path@) is None,
        },
{
    let parts = components(path);
    let n = parts.len();
    if n == 0 {
        return None;
    }
    match &parts[n - 1] {
        Component::Normal(name) => Some(name.clone()),
        _ => None,
    }
}

/// The first and the last character of `s`.
fn ends_of(s: &str) -> (r: (Option<char>, Option<char>))
    ensures
        s@.len() == 0 ==> r.0 is None && r.1 is None,
        s@.len() > 0 ==> r.0 == Some(s@[0]) && r.1 == Some(s@.last()),
{
    let mut first: Option<char> = None;
    let mut last: Option<char> = None;
    for c in it: s.chars()
        invariant
            it.seq() == s@,
            it.index() == 0 ==> first is None && last is None,
            it.index() > 0 ==> first == Some(s@[0]) && last == Some(s@[it.index() - 1]),
    {
        if first.is_none() {
            first = Some(c);
        }
        last = Some(c);
    }
    (first, last)
}

/// `dir.join(part)`.
pub fn join(dir: &str, part: &str) -> (r: String)
    ensures
        r@ == spec_join(dir@, part@),
{
    let (pf, _) = ends_of(part);
    if pf == Some('/') {
        return part.to_owned();
    }
    let (_, dl) = ends_of(dir);
    let mut s = dir.to_owned();
    if !(dl.is_none() || dl == Some('/')) {
        push_char(&mut s, '/');
    }
    s.append(part);
    assert(s@ =~= spec_join(dir@, part@));
    s
}

/// Every path is a prefix of itself: a protected path keeps itself from being
/// deleted.
pub proof fn lemma_prefix_path_reflexive(p: Seq<char>)
    ensures
        is_prefix_path(p, p),
{
    assert(path_parts(p).take(path_parts(p).len() as int) =~= path_parts(p));
}

/// Being a prefix is transitive: an ancestor of an ancestor is an ancestor.
pub proof fn lemma_prefix_path_transitive(a: Seq<char>, b: Seq<char>, c: Seq<char>)
    requires
        is_prefix_path(a, b),
        is_prefix_path(b, c),
    ensures
        is_prefix_path(a, c),
{
    let pa = path_parts(a);
    let pb = path_parts(b);
    let pc = path_parts(c);
    assert(pc.take(pa.len() as int) =~= pc.take(pb.len() as int).take(pa.len() as int));
}

/// A single file name: not empty, without a separator, and neither `.` nor
/// `..`.
pub open spec fn is_plain_name(name: Seq<char>) -> bool {
    &&& name.len() > 0
    &&& forall|i: int| 0 <= i < name.len() ==> #[trigger] name[i] != '/'
    &&& !is_dot(name)
    &&& !is_dot_dot(name)
}

/// A path written the way its components write it back: no repeated or
/// trailing separators and no inner `.` (as a canonical path is).
pub open spec fn is_normal_path(p: Seq<char>) -> bool {
    render_parts(path_parts(p)) == p
}

/// Appending characters without a separator extends the last piece.
proof fn lemma_split_append_plain(s: Seq<char>, name: Seq<char>)
    requires
        forall|i: int| 0 <= i < name.len() ==> #[trigger] name[i] != '/',
    ensures
        split_parts(s + name) == split_parts(s).update(
            split_parts(s).len() - 1,
            split_parts(s).last() + name,
        ),
    decreases name.len(),
{
    lemma_split_len(s);
    if name.len() == 0 {
        assert(s + name =~= s);
        let p = split_parts(s);
        assert(p.last() + name =~= p.last());
        assert(p.update(p.len() - 1, p.last() + name) =~= p);
    } else {
        let init = name.drop_last();
        assert forall|i: int| 0 <= i < init.len() implies #[trigger] init[i] != '/' by {
            assert(init[i] == name[i]);
        }
        lemma_split_append_plain(s, init);
        assert((s + name).drop_last() =~= s + init);
        assert((s + name).last() == name.last());
        assert(name.last() != '/') by {
            assert(name[name.len() - 1] != '/');
        }
        let p = split_parts(s);
        let q = p.update(p.len() - 1, p.last() + init);
        assert(q.last() == p.last() + init);
        assert(q.update(q.len() - 1, q.last().push(name.last())) =~= p.update(
            p.len() - 1,
            p.last() + name,
        )) by {
            assert((p.last() + init).push(name.last()) =~= p.last() + name);
        }
    }
}

/// The components of `dir/name`: those of `dir`, then the name.
proof fn lemma_parts_of_join(dir: Seq<char>, name: Seq<char>)
    requires
        dir.len() > 0,
        is_plain_name(name),
    ensures
        path_parts(spec_join(dir, name)) == path_parts(dir).push(PathPart::Name(name)),
{
    let j = spec_join(dir, name);
    lemma_split_len(dir);
    let p = split_parts(dir);
    assert(name[0] != '/');
    if dir.last() == '/' {
        assert(j == dir + name);
        lemma_split_append_plain(dir, name);
        assert(dir.drop_last() + seq![dir.last()] =~= dir);
        assert(p == split_parts(dir.drop_last()).push(Seq::empty()));
        assert(p.last() + name =~= name);
        assert(split_parts(j) =~= p.drop_last().push(name));
        assert(p.drop_last().push(name).drop_last() =~= p.drop_last());
        assert(parts_of(p) == parts_of(p.drop_last()) + part_of(p.last()));
        assert(part_of(p.last()) =~= Seq::<PathPart>::empty());
        assert(parts_of(p) =~= parts_of(p.drop_last()));
        assert(parts_of(split_parts(j)) == parts_of(p.drop_last()) + part_of(name));
    } else {
        let d1 = dir + seq!['/'];
        assert(j == d1 + name);
        assert(d1.drop_last() =~= dir);
        assert(split_parts(d1) == p.push(Seq::empty()));
        lemma_split_append_plain(d1, name);
        let q = p.push(Seq::<char>::empty());
        assert(q.last() + name =~= name);
        assert(split_parts(j) =~= p.push(name));
        assert(p.push(name).drop_last() =~= p);
        assert(parts_of(split_parts(j)) == parts_of(p) + part_of(name));
    }
    assert(part_of(name) == seq![PathPart::Name(name)]);
    assert(j[0] == dir[0]);
    if dir.len() == 1 {
        if dir[0] == '.' {
            assert(j.len() > 1 && j[1] == '/');
        }
    } else {
        assert(j[1] == dir[1]);
    }
    assert(leading_part(j) == leading_part(dir));
    assert(path_parts(j) =~= path_parts(dir).push(PathPart::Name(name)));
}

/// A path packed from `dir/name` goes back to where it was: its parent is
/// `dir` and its file name is `name`, which is what a restore unpacks into
/// the original directory.
pub proof fn lemma_parent_and_name_of_join(dir: Seq<char>, name: Seq<char>)
    requires
        dir.len() > 0,
        is_normal_path(dir),
        is_plain_name(name),
    ensures
        spec_parent(spec_join(dir, name)) == Some(dir),
        spec_file_name(spec_join(dir, name)) == Some(name),
{
    lemma_parts_of_join(dir, name);
    let pp = path_parts(dir).push(PathPart::Name(name));
    assert(pp.drop_last() =~= path_parts(dir));
}

/// Splitting at a separator: the pieces of `a/b` are those of `a`, then
/// those of `b`.
proof fn lemma_split_at_separator(a: Seq<char>, b: Seq<char>)
    ensures
        split_parts(a + seq!['/'] + b) == split_parts(a) + split_parts(b),
    decreases b.len(),
{
    let s = a + seq!['/'] + b;
    lemma_split_len(a);
    if b.len() == 0 {
        assert(s.drop_last() =~= a);
        assert(split_parts(b) == seq![Seq::<char>::empty()]);
        assert(split_parts(a).push(Seq::empty()) =~= split_parts(a) + split_parts(b));
    } else {
        let b0 = b.drop_last();
        lemma_split_at_separator(a, b0);
        lemma_split_len(b0);
        assert(s.drop_last() =~= a + seq!['/'] + b0);
        assert(s.last() == b.last());
        let pa = split_parts(a);
        let pb = split_parts(b0);
        if b.last() == '/' {
            assert((pa + pb).push(Seq::empty()) =~= pa + pb.push(Seq::empty()));
        } else {
            let q = pa + pb;
            assert(q.update(q.len() - 1, q.last().push(b.last())) =~= pa + pb.update(
                pb.len() - 1,
                pb.last().push(b.last()),
            ));
        }
    }
}

/// The components of consecutive pieces are those of each, in order.
proof fn lemma_parts_of_concat(p: Seq<Seq<char>>, q: Seq<Seq<char>>)
    ensures
        parts_of(p + q) == parts_of(p) + parts_of(q),
    decreases q.len(),
{
    if q.len() == 0 {
        assert(p + q =~= p);
        assert(parts_of(p) + parts_of(q) =~= parts_of(p));
    } else {
        lemma_parts_of_concat(p, q.drop_last());
        assert((p + q).drop_last() =~= p + q.drop_last());
        assert((p + q).last() == q.last());
        assert(parts_of(p) + parts_of(q.drop_last()) + part_of(q.last()) =~= parts_of(p) + (
        parts_of(q.drop_last()) + part_of(q.last())));
    }
}

/// The components of `x/y`, where `y` starts with `.` or a separator: those
/// of `x`, then those of the pieces of `y`.
proof fn lemma_parts_after_separator(x: Seq<char>, y: Seq<char>)
    requires
        x.len() > 0,
    ensures
        path_parts(x + seq!['/'] + y) == leading_part(x) + parts_of(split_parts(x)) + parts_of(
            split_parts(y),
        ),
{
    let s = x + seq!['/'] + y;
    lemma_split_at_separator(x, y);
    lemma_parts_of_concat(split_parts(x), split_parts(y));
    assert(s[0] == x[0]);
    if x.len() == 1 {
        assert(s[1] == '/');
        assert(x.len() == 1);
    } else {
        assert(s[1] == x[1]);
    }
    assert(leading_part(s) == leading_part(x));
    assert(path_parts(s) =~= leading_part(x) + parts_of(split_parts(x)) + parts_of(split_parts(y)));
}

/// Paths are read by their components: a repeated separator, an inner `.`
/// and a trailing separator change nothing (`a//b`, `a/./b` and `a/b/` all
/// name `a/b`).
pub proof fn lemma_components_ignore_spelling(x: Seq<char>, y: Seq<char>)
    requires
        x.len() > 0,
    ensures
        path_parts(x + seq!['/', '/'] + y) == path_parts(x + seq!['/'] + y),
        path_parts(x + seq!['/', '.', '/'] + y) == path_parts(x + seq!['/'] + y),
        path_parts(x + seq!['/']) == path_parts(x),
{
    lemma_parts_after_separator(x, y);
    let y1 = seq!['/'] + y;
    assert(x + seq!['/', '/'] + y =~= x + seq!['/'] + y1);
    lemma_parts_after_separator(x, y1);
    assert(y1 =~= Seq::<char>::empty() + seq!['/'] + y);
    lemma_split_at_separator(Seq::empty(), y);
    assert(split_parts(Seq::<char>::empty()) == seq![Seq::<char>::empty()]);
    lemma_parts_of_concat(seq![Seq::<char>::empty()], split_parts(y));
    assert(parts_of(seq![Seq::<char>::empty()]) =~= Seq::<PathPart>::empty()) by {
        let one = seq![Seq::<char>::empty()];
        assert(one.drop_last() =~= Seq::<Seq<char>>::empty());
        assert(parts_of(one) == parts_of(one.drop_last()) + part_of(one.last()));
        assert(part_of(Seq::<char>::empty()) =~= Seq::<PathPart>::empty());
    }
    assert(parts_of(split_parts(y1)) =~= parts_of(split_parts(y)));
    let y2 = seq!['.', '/'] + y;
    assert(x + seq!['/', '.', '/'] + y =~= x + seq!['/'] + y2);
    lemma_parts_after_separator(x, y2);
    assert(y2 =~= seq!['.'] + seq!['/'] + y);
    lemma_split_at_separator(seq!['.'], y);
    assert(seq!['.'].drop_last() =~= Seq::<char>::empty());
    assert(split_parts(seq!['.']) =~= seq![seq!['.']]);
    lemma_parts_of_concat(seq![seq!['.']], split_parts(y));
    assert(parts_of(seq![seq!['.']]) =~= Seq::<PathPart>::empty()) by {
        let one = seq![seq!['.']];
        assert(one.drop_last() =~= Seq::<Seq<char>>::empty());
        assert(parts_of(one) == parts_of(one.drop_last()) + part_of(one.last()));
        assert(is_dot(seq!['.']));
        assert(part_of(seq!['.']) =~= Seq::<PathPart>::empty());
    }
    assert(parts_of(split_parts(y2)) =~= parts_of(split_parts(y)));
    lemma_parts_after_separator(x, Seq::empty());
    assert(x + seq!['/'] + Seq::<char>::empty() =~= x + seq!['/']);
    assert(parts_of(split_parts(Seq::<char>::empty())) =~= Seq::<PathPart>::empty()) by {
        assert(seq![Seq::<char>::empty()].drop_last() =~= Seq::<Seq<char>>::empty());
    }
    assert(path_parts(x) =~= leading_part(x) + parts_of(split_parts(x)));
}

/// A path lies below the directory it was joined to, and is not itself an
/// ancestor of that directory.
pub proof fn lemma_join_is_below(dir: Seq<char>, name: Seq<char>)
    requires
        dir.len() > 0,
        is_plain_name(name),
    ensures
        is_prefix_path(dir, spec_join(dir, name)),
        !is_prefix_path(spec_join(dir, name), dir),
{
    lemma_parts_of_join(dir, name);
    let pd = path_parts(dir);
    let pj = path_parts(spec_join(dir, name));
    assert(pj.take(pd.len() as int) =~= pd);
}

/// Paths are compared by whole components, not by characters: of two
/// different names in one directory neither is an ancestor of the other
/// (protecting `/a/doc` does not protect `/a/docs`).
pub proof fn lemma_sibling_not_below(dir: Seq<char>, a: Seq<char>, b: Seq<char>)
    requires
        dir.len() > 0,
        is_plain_name(a),
        is_plain_name(b),
        a != b,
    ensures
        !is_prefix_path(spec_join(dir, a), spec_join(dir, b)),
{
    lemma_parts_of_join(dir, a);
    lemma_parts_of_join(dir, b);
    let pa = path_parts(spec_join(dir, a));
    let pb = path_parts(spec_join(dir, b));
    if is_prefix_path(spec_join(dir, a), spec_join(dir, b)) {
        assert(pb.take(pa.len() as int)[pa.len() - 1] == pa[pa.len() - 1]);
    }
}

} // verus!
