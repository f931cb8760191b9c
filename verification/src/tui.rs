//! The file browser: what each entry is, how it is labelled, and what a key
//! press does. Drawing, reading keys and walking the disk happen outside.
use vstd::prelude::*;
use crate::paths::{file_name, spec_file_name};
use vstd::pervasive::VecAdditionalExecFns;

verus! {

/// What an entry of the file tree is.
#[derive(Debug)]
pub enum FileType {
    /// A file of the given length.
    File(u64),
    /// A directory.
    Dir,
    /// A symbolic link to an entry of the given type.
    Symlink(Box<FileType>),
    /// Anything else.
    Others,
}

impl FileType {
    pub open spec fn spec_is_dir(&self) -> bool
        decreases self,
    {
        match self {
            FileType::Dir => true,
            FileType::Symlink(inner) => inner.spec_is_dir(),
            _ => false,
        }
    }

    pub open spec fn spec_get_size(&self) -> Option<u64>
        decreases self,
    {
        match self {
            FileType::File(size) => Some(*size),
            FileType::Symlink(inner) => inner.spec_get_size(),
            _ => None,
        }
    }

    /// A directory, or a link to one.
    pub fn is_dir(&self) -> (r: bool)
        ensures
            r == self.spec_is_dir(),
        decreases self,
    {
        match self {
            FileType::Dir => true,
            FileType::Symlink(inner) => inner.is_dir(),
            _ => false,
        }
    }

    /// The length of a file, or of the file a link points to.
    pub fn get_size(&self) -> (r: Option<u64>)
        ensures
            r == self.spec_get_size(),
        decreases self,
    {
        match self {
            FileType::File(size) => Some(*size),
            FileType::Symlink(inner) => inner.get_size(),
            _ => None,
        }
    }

    /// The mark shown after an entry's name: `/` for a directory, `&` for a
    /// link, nothing otherwise.
    pub fn marker(&self) -> (s: String)
        ensures
            s@ == match self {
                FileType::Dir => "/"@,
                FileType::Symlink(_) => "&"@,
                _ => ""@,
            },
    {
        match self {
            FileType::File(_) => "".to_owned(),
            FileType::Dir => "/".to_owned(),
            FileType::Symlink(_) => "&".to_owned(),
            FileType::Others => "".to_owned(),
        }
    }
}

/// A link is a directory exactly when what it points to is one, and has the
/// size of what it points to; a file is no directory and has its own length;
/// a directory has no length of its own; anything else is neither.
pub proof fn lemma_file_type_laws(t: FileType, n: u64)
    ensures
        FileType::Symlink(Box::new(t)).spec_is_dir() == t.spec_is_dir(),
        FileType::Symlink(Box::new(t)).spec_get_size() == t.spec_get_size(),
        !FileType::File(n).spec_is_dir(),
        FileType::File(n).spec_get_size() == Some(n),
        FileType::Dir.spec_is_dir(),
        FileType::Dir.spec_get_size() is None,
        !FileType::Others.spec_is_dir(),
        FileType::Others.spec_get_size() is None,
        !FileType::Symlink(Box::new(FileType::File(n))).spec_is_dir(),
{
}

/// The type of an entry from its metadata: for a link, the metadata of what
/// it points to gives the inner type.
pub open spec fn spec_classify(is_symlink: bool, is_file: bool, is_dir: bool, len: u64) -> FileType {
    let target = if is_file {
        FileType::File(len)
    } else if is_dir {
        FileType::Dir
    } else {
        FileType::Others
    };
    if is_symlink {
        FileType::Symlink(Box::new(target))
    } else {
        target
    }
}

/// What the metadata says decides the type: a file has the length read, a
/// directory is one (and is then read for children), anything else is
/// neither; a link has the type of what it points to, and is marked as a
/// link.
pub proof fn lemma_classify_laws(is_symlink: bool, is_file: bool, is_dir: bool, len: u64)
    ensures
        spec_classify(is_symlink, is_file, is_dir, len).spec_is_dir() == (!is_file && is_dir),
        spec_classify(is_symlink, is_file, is_dir, len).spec_get_size() == if is_file {
            Some(len)
        } else {
            None
        },
        spec_classify(is_symlink, is_file, is_dir, len) is Symlink <==> is_symlink,
        is_symlink ==> spec_classify(true, is_file, is_dir, len) == FileType::Symlink(
            Box::new(spec_classify(false, is_file, is_dir, len)),
        ),
        !is_symlink && is_file ==> spec_classify(false, true, is_dir, len) == FileType::File(len),
        !is_symlink && !is_file && is_dir ==> spec_classify(false, false, true, len)
            == FileType::Dir,
        !is_symlink && !is_file && !is_dir ==> spec_classify(false, false, false, len)
            == FileType::Others,
{
    let target = spec_classify(false, is_file, is_dir, len);
    assert(FileType::Symlink(Box::new(target)).spec_is_dir() == target.spec_is_dir());
    assert(FileType::Symlink(Box::new(target)).spec_get_size() == target.spec_get_size());
}

pub fn classify(is_symlink: bool, is_file: bool, is_dir: bool, len: u64) -> (t: FileType)
    ensures
        t == spec_classify(is_symlink, is_file, is_dir, len),
{
    let target = if is_file {
        FileType::File(len)
    } else if is_dir {
        FileType::Dir
    } else {
        FileType::Others
    };
    if is_symlink {
        FileType::Symlink(Box::new(target))
    } else {
        target
    }
}

pub open spec fn sum_sizes(sizes: Seq<u64>) -> nat
    decreases sizes.len(),
{
    if sizes.len() == 0 {
        0
    } else {
        sum_sizes(sizes.drop_last()) + sizes.last() as nat
    }
}

/// The size of an entry: its own length for a file (or a link to one), the
/// sum of its children for a directory, and 0 otherwise.
pub open spec fn spec_node_size(t: FileType, children: Option<Seq<u64>>) -> nat {
    match t.spec_get_size() {
        Some(s) => s as nat,
        None => match children {
            Some(c) => sum_sizes(c),
            None => 0,
        },
    }
}

proof fn lemma_sum_prefix(sizes: Seq<u64>, k: int)
    requires
        0 <= k <= sizes.len(),
    ensures
        sum_sizes(sizes.take(k)) <= sum_sizes(sizes),
    decreases sizes.len() - k,
{
    if k < sizes.len() {
        lemma_sum_prefix(sizes, k + 1);
        assert(sizes.take(k + 1).drop_last() =~= sizes.take(k));
    } else {
        assert(sizes.take(k) =~= sizes);
    }
}

pub fn node_size(t: &FileType, children: Option<&Vec<u64>>) -> (n: u64)
    requires
        children matches Some(c) ==> sum_sizes(c@) <= u64::MAX,
    ensures
        n as nat == spec_node_size(*t, match children {
            Some(c) => Some(c@),
            None => None,
        }),
{
    match t.get_size() {
        Some(s) => s,
        None => match children {
            Some(c) => {
                let mut total: u64 = 0;
                let mut i: usize = 0;
                while i < c.len()
                    invariant
                        0 <= i <= c.len(),
                        sum_sizes(c@) <= u64::MAX,
                        total as nat == sum_sizes(c@.take(i as int)),
                    decreases c.len() - i,
                {
                    proof {
                        assert(c@.take(i + 1).drop_last() =~= c@.take(i as int));
                        lemma_sum_prefix(c@, i + 1);
                    }
                    total = total + c[i];
                    i = i + 1;
                }
                assert(c@.take(c.len() as int) =~= c@);
                total
            },
            None => 0,
        },
    }
}

/// Sizes add up: the total of two lists of children is the sum of their
/// totals, and one child's total is its size.
pub proof fn lemma_sum_sizes_additive(a: Seq<u64>, b: Seq<u64>)
    ensures
        sum_sizes(a + b) == sum_sizes(a) + sum_sizes(b),
    decreases b.len(),
{
    if b.len() == 0 {
        assert(a + b =~= a);
    } else {
        lemma_sum_sizes_additive(a, b.drop_last());
        assert((a + b).drop_last() =~= a + b.drop_last());
    }
}

/// A file, or a link to one, counts its own length whatever children are
/// given; a directory counts the sizes of its children, none being 0 and a
/// single one being its size; anything else counts 0.
pub proof fn lemma_node_size_laws(n: u64, children: Seq<u64>, x: u64)
    ensures
        spec_node_size(FileType::File(n), Some(children)) == n,
        spec_node_size(FileType::Symlink(Box::new(FileType::File(n))), None) == n,
        spec_node_size(FileType::Dir, Some(Seq::empty())) == 0,
        spec_node_size(FileType::Dir, Some(seq![x])) == x,
        spec_node_size(FileType::Dir, Some(children.push(x))) == spec_node_size(
            FileType::Dir,
            Some(children),
        ) + x,
        spec_node_size(FileType::Others, None) == 0,
        spec_node_size(FileType::Dir, None) == 0,
{
    assert(seq![x].drop_last() =~= Seq::<u64>::empty());
    assert(sum_sizes(Seq::<u64>::empty()) == 0);
    assert(children.push(x).drop_last() =~= children);
}

/// An entry's name in the list: the last part of its path, or the whole path
/// when it has none (such as `/` or `..`).
pub fn entry_name(path: &str) -> (name: String)
    ensures
        name@ == match spec_file_name(path@) {
            Some(n) => n,
            None => path@,
        },
{
    match file_name(path) {
        Some(n) => n,
        None => path.to_owned(),
    }
}

// ---------------------------------------------------------------------------
// Keys
// ---------------------------------------------------------------------------

/// A key press, as the browser tells keys apart.
#[derive(Debug, Clone, Copy, PartialEq, Eq, Structural)]
pub enum Key {
    /// `q` or Esc.
    Quit,
    /// Arrow up.
    Up,
    /// Arrow down.
    Down,
    /// `d`.
    Delete,
    /// `s`.
    Save,
    /// Enter or arrow right.
    Open,
    /// Arrow left.
    Back,
    /// Any other key.
    Other,
}

/// What the program around the browser does after a key press.
#[derive(Debug, Clone, Copy, PartialEq, Eq, Structural)]
pub enum TuiAction {
    Quit,
    /// Move the list's selection up (the list widget moves it).
    SelectPrevious,
    /// Move the list's selection down (the list widget moves it).
    SelectNext,
    /// Move the entry with this index to the trash.
    DeleteEntry(usize),
    /// Pack the entry with this index, keeping it.
    SaveEntry(usize),
    /// The directory with this index is now shown.
    Enter(usize),
    /// The parent directory is now shown.
    Leave,
    Nothing,
    /// The key needs a selected entry and none is selected within the list.
    NoSelection,
}

// ---------------------------------------------------------------------------
// The browser's state
// ---------------------------------------------------------------------------

/// One entry of the browsed tree: the directory it lies in, the entries it
/// lists (for a directory), and whether it is a directory. Entries are
/// known by their index in the browser's list of nodes.
#[derive(Debug)]
pub struct Node {
    pub parent: Option<usize>,
    pub children: Option<Vec<usize>>,
    pub is_dir: bool,
}

pub struct NodeView {
    pub parent: Option<usize>,
    pub children: Option<Seq<usize>>,
    pub is_dir: bool,
}

impl View for Node {
    type V = NodeView;

    open spec fn view(&self) -> NodeView {
        NodeView {
            parent: self.parent,
            children: match self.children {
                Some(v) => Some(v@),
                None => None,
            },
            is_dir: self.is_dir,
        }
    }
}

/// The file browser: the tree of entries, the directory shown, and the
/// selected line of its list.
#[derive(Debug)]
pub struct Browser {
    pub nodes: Vec<Node>,
    pub current: usize,
    pub selected: Option<usize>,
}

#[verifier::ext_equal]
pub struct BrowserView {
    pub nodes: Seq<NodeView>,
    pub current: usize,
    pub selected: Option<usize>,
}

impl View for Browser {
    type V = BrowserView;

    open spec fn view(&self) -> BrowserView {
        BrowserView {
            nodes: self.nodes@.map_values(|n: Node| n@),
            current: self.current,
            selected: self.selected,
        }
    }
}

impl BrowserView {
    /// The entries listed by the directory shown.
    pub open spec fn entries(self) -> Seq<usize> {
        self.nodes[self.current as int].children->0
    }

    /// The browser shows a directory whose entries and parent are known.
    pub open spec fn ready(self) -> bool {
        &&& self.current < self.nodes.len()
        &&& self.nodes[self.current as int].children is Some
        &&& forall|t: int| 0 <= t < self.entries().len() ==> #[trigger] self.entries()[t] < self.nodes.len()
        &&& self.nodes[self.current as int].parent matches Some(p) ==> p < self.nodes.len()
    }

    /// The selected line, when it is within the list.
    pub open spec fn valid_selection(self) -> bool {
        self.selected matches Some(i) && i < self.entries().len()
    }
}

/// The browser after a key press, and what the program around it does.
///
/// `q`/Esc quits. The arrows up and down leave the state to the list widget,
/// which moves the selection. `d` moves the selected entry to the trash and
/// takes it off the list; `s` packs it and keeps it. Enter or right opens the
/// selected entry when it is a directory, selecting its first line; left goes
/// to the parent directory, selecting its first line. Nothing else changes.
pub open spec fn spec_step(b: BrowserView, key: Key) -> (BrowserView, TuiAction) {
    let kids = b.entries();
    let i = b.selected->0;
    match key {
        Key::Quit => (b, TuiAction::Quit),
        Key::Up => (b, TuiAction::SelectPrevious),
        Key::Down => (b, TuiAction::SelectNext),
        Key::Delete => if b.valid_selection() {
            (
                BrowserView {
                    nodes: b.nodes.update(
                        b.current as int,
                        NodeView { children: Some(kids.remove(i as int)), ..b.nodes[b.current as int] },
                    ),
                    ..b
                },
                TuiAction::DeleteEntry(kids[i as int]),
            )
        } else {
            (b, TuiAction::NoSelection)
        },
        Key::Save => if b.valid_selection() {
            (b, TuiAction::SaveEntry(kids[i as int]))
        } else {
            (b, TuiAction::NoSelection)
        },
        Key::Open => if !b.valid_selection() {
            (b, TuiAction::NoSelection)
        } else if b.nodes[kids[i as int] as int].is_dir {
            (
                BrowserView { current: kids[i as int], selected: Some(0), ..b },
                TuiAction::Enter(kids[i as int]),
            )
        } else {
            (b, TuiAction::Nothing)
        },
        Key::Back => match b.nodes[b.current as int].parent {
            Some(p) => (BrowserView { current: p, selected: Some(0), ..b }, TuiAction::Leave),
            None => (b, TuiAction::Nothing),
        },
        Key::Other => (b, TuiAction::Nothing),
    }
}

impl Browser {
    /// Whether the browser shows a directory whose entries and parent are
    /// known, so that a key can be handled.
    pub fn ready(&self) -> (r: bool)
        ensures
            r == self@.ready(),
    {
        let n = self.nodes.len();
        if self.current >= n {
            return false;
        }
        let node = &self.nodes[self.current];
        proof {
            assert(self@.nodes[self.current as int] == node@);
        }
        match node.parent {
            Some(p) => {
                if p >= n {
                    return false;
                }
            },
            None => {},
        }
        match &node.children {
            None => false,
            Some(kids) => {
                let mut t: usize = 0;
                while t < kids.len()
                    invariant
                        0 <= t <= kids.len(),
                        n == self@.nodes.len(),
                        self@.entries() == kids@,
                        forall|u: int| 0 <= u < t ==> kids@[u] < n,
                    decreases kids.len() - t,
                {
                    if kids[t] >= n {
                        return false;
                    }
                    t = t + 1;
                }
                true
            },
        }
    }

    /// Handles one key press: changes the browser as `spec_step` says and
    /// returns what the program around it does.
    pub fn step(&mut self, key: Key) -> (a: TuiAction)
        requires
            old(self)@.ready(),
        ensures
            (final(self)@, a) == spec_step(old(self)@, key),
    {
        let ghost b = self@;
        let cur = self.current;
        proof {
            assert(self@.nodes[cur as int] == self.nodes@[cur as int]@);
        }
        let count = match &self.nodes[cur].children {
            Some(kids) => kids.len(),
            None => 0,
        };
        let valid = match self.selected {
            Some(i) => i < count,
            None => false,
        };
        match key {
            Key::Quit => TuiAction::Quit,
            Key::Up => TuiAction::SelectPrevious,
            Key::Down => TuiAction::SelectNext,
            Key::Delete => {
                if !valid {
                    return TuiAction::NoSelection;
                }
                let i = self.selected.unwrap();
                let mut node = Node { parent: None, children: None, is_dir: false };
                self.nodes.set_and_swap(cur, &mut node);
                let Node { parent, children, is_dir } = node;
                let mut kids = children.unwrap();
                let id = kids.remove(i);
                let mut updated = Node { parent, children: Some(kids), is_dir };
                self.nodes.set_and_swap(cur, &mut updated);
                proof {
                    let nb = BrowserView {
                        nodes: b.nodes.update(
                            cur as int,
                            NodeView { children: Some(b.entries().remove(i as int)), ..b.nodes[cur as int] },
                        ),
                        ..b
                    };
                    assert(self@.nodes =~= nb.nodes);
                    assert(self@ =~= nb);
                }
                TuiAction::DeleteEntry(id)
            },
            Key::Save => {
                if !valid {
                    return TuiAction::NoSelection;
                }
                let i = self.selected.unwrap();
                let id = match &self.nodes[cur].children {
                    Some(kids) => kids[i],
                    None => 0,
                };
                TuiAction::SaveEntry(id)
            },
            Key::Open => {
                if !valid {
                    return TuiAction::NoSelection;
                }
                let i = self.selected.unwrap();
                let id = match &self.nodes[cur].children {
                    Some(kids) => kids[i],
                    None => 0,
                };
                proof {
                    assert(id == b.entries()[i as int]);
                    assert(id < self.nodes.len());
                    assert(self@.nodes[id as int] == self.nodes@[id as int]@);
                }
                if self.nodes[id].is_dir {
                    self.current = id;
                    self.selected = Some(0);
                    TuiAction::Enter(id)
                } else {
                    TuiAction::Nothing
                }
            },
            Key::Back => match self.nodes[cur].parent {
                Some(p) => {
                    self.current = p;
                    self.selected = Some(0);
                    TuiAction::Leave
                },
                None => TuiAction::Nothing,
            },
            Key::Other => TuiAction::Nothing,
        }
    }
}

/// Adds an entry to the tree, with `children` as the entries it lists (a
/// directory lists entries, anything else lists none), and makes it their
/// parent. Returns its index.
pub fn add_node(nodes: &mut Vec<Node>, is_dir: bool, children: Option<Vec<usize>>) -> (id: usize)
    requires
        children is Some <==> is_dir,
        children matches Some(c) ==> forall|t: int| 0 <= t < c@.len() ==> #[trigger] c@[t] < old(nodes)@.len(),
    ensures
        id == old(nodes)@.len(),
        final(nodes)@.len() == old(nodes)@.len() + 1,
        final(nodes)@[id as int]@ == (NodeView {
            parent: None,
            children: match children {
                Some(c) => Some(c@),
                None => None,
            },
            is_dir,
        }),
        forall|j: int|
            0 <= j < old(nodes)@.len() ==> #[trigger] final(nodes)@[j]@ == if children matches Some(c)
                && c@.contains(j as usize) {
                NodeView { parent: Some(id), ..old(nodes)@[j]@ }
            } else {
                old(nodes)@[j]@
            },
{
    let id = nodes.len();
    let ghost before = nodes@;
    let ids: Vec<usize> = match &children {
        Some(c) => c.clone(),
        None => Vec::new(),
    };
    proof {
        if children is Some {
            assert(ids@ =~= children->0@);
        }
    }
    let mut t: usize = 0;
    while t < ids.len()
        invariant
            id == before.len(),
            nodes@.len() == before.len(),
            0 <= t <= ids.len(),
            children matches Some(c) ==> ids@ == c@,
            children is None ==> ids@.len() == 0,
            forall|u: int| 0 <= u < ids@.len() ==> #[trigger] ids@[u] < before.len(),
            forall|j: int|
                0 <= j < before.len() ==> #[trigger] nodes@[j]@ == if ids@.take(t as int).contains(
                    j as usize,
                ) {
                    NodeView { parent: Some(id), ..before[j]@ }
                } else {
                    before[j]@
                },
        decreases ids.len() - t,
    {
        let k = ids[t];
        let ghost prev = nodes@;
        let mut node = Node { parent: None, children: None, is_dir: false };
        nodes.set_and_swap(k, &mut node);
        assert(node == prev[k as int]);
        let Node { parent: _, children: kc, is_dir: kd } = node;
        let mut updated = Node { parent: Some(id), children: kc, is_dir: kd };
        let ghost new_node = updated;
        nodes.set_and_swap(k, &mut updated);
        proof {
            assert(nodes@ =~= prev.update(k as int, new_node));
            assert(new_node@ == NodeView { parent: Some(id), ..prev[k as int]@ });
            assert forall|j: int| 0 <= j < before.len() implies #[trigger] nodes@[j]@ == if ids@.take(
                t + 1,
            ).contains(j as usize) {
                NodeView { parent: Some(id), ..before[j]@ }
            } else {
                before[j]@
            } by {
                let s0 = ids@.take(t as int);
                let s1 = ids@.take(t + 1);
                assert(s1 =~= s0.push(k));
                assert(s1[t as int] == k);
                if j == k as int {
                    assert(s1.contains(k));
                    assert(nodes@[j] == new_node);
                } else {
                    assert(nodes@[j] == prev[j]);
                    if s0.contains(j as usize) {
                        let w = choose|w: int| 0 <= w < s0.len() && s0[w] == j as usize;
                        assert(s1[w] == j as usize);
                    }
                    if s1.contains(j as usize) {
                        let w = choose|w: int| 0 <= w < s1.len() && s1[w] == j as usize;
                        assert(w < t);
                        assert(s0[w] == j as usize);
                    }
                }
            }
        }
        t = t + 1;
    }
    nodes.push(Node { parent: None, children, is_dir });
    proof {
        assert(ids@.take(ids@.len() as int) =~= ids@);
    }
    id
}

/// The tree is consistent: exactly the directories list entries, every
/// entry listed and every parent is a node of the tree, and a parent is a
/// directory.
pub open spec fn tree_wf(b: BrowserView) -> bool {
    forall|j: int|
        0 <= j < b.nodes.len() ==> {
            let n = #[trigger] b.nodes[j];
            &&& (n.children is Some <==> n.is_dir)
            &&& (n.children matches Some(c) ==> forall|t: int|
                0 <= t < c.len() ==> #[trigger] c[t] < b.nodes.len())
            &&& (n.parent matches Some(p) ==> p < b.nodes.len() && b.nodes[p as int].is_dir)
        }
}

/// Every key keeps a consistent tree consistent and leaves the browser
/// showing a directory, ready for the next key: opening only ever enters a
/// directory, going back lands on one, and deleting takes an entry off a
/// list without touching the tree's shape otherwise.
pub proof fn lemma_step_keeps_ready(b: BrowserView, key: Key)
    requires
        b.ready(),
        tree_wf(b),
        b.nodes[b.current as int].is_dir,
    ensures
        tree_wf(spec_step(b, key).0),
        spec_step(b, key).0.ready(),
        spec_step(b, key).0.nodes[spec_step(b, key).0.current as int].is_dir,
{
    let nb = spec_step(b, key).0;
    let cur = b.current as int;
    assert(tree_wf(b) ==> (b.nodes[cur].children is Some <==> b.nodes[cur].is_dir));
    if key == Key::Delete && b.valid_selection() {
        let i = b.selected->0 as int;
        let kids = b.entries();
        let rest = kids.remove(i);
        assert(nb.nodes.len() == b.nodes.len());
        assert forall|t: int| 0 <= t < rest.len() implies #[trigger] rest[t] < b.nodes.len() by {
            if t < i {
                assert(rest[t] == kids[t]);
            } else {
                assert(rest[t] == kids[t + 1]);
            }
        }
        assert forall|j: int| 0 <= j < nb.nodes.len() implies {
            let n = #[trigger] nb.nodes[j];
            &&& (n.children is Some <==> n.is_dir)
            &&& (n.children matches Some(c) ==> forall|t: int|
                0 <= t < c.len() ==> #[trigger] c[t] < nb.nodes.len())
            &&& (n.parent matches Some(p) ==> p < nb.nodes.len() && nb.nodes[p as int].is_dir)
        } by {
            let n = b.nodes[j];
            if let Some(p) = n.parent {
                assert(nb.nodes[p as int].is_dir == b.nodes[p as int].is_dir);
            }
            if j == cur {
                if let Some(p) = b.nodes[cur].parent {
                    assert(nb.nodes[p as int].is_dir == b.nodes[p as int].is_dir);
                }
            }
        }
        assert(nb.entries() == rest);
    } else if key == Key::Open && b.valid_selection() {
        let e = b.entries()[b.selected->0 as int];
        assert(e < b.nodes.len());
        assert(b.nodes[e as int] == b.nodes[e as int]);
        if b.nodes[e as int].is_dir {
            assert(nb.current == e);
            assert(nb.nodes == b.nodes);
        }
    } else if key == Key::Back {
        if let Some(p) = b.nodes[cur].parent {
            assert(b.nodes[p as int] == b.nodes[p as int]);
        }
    }
}

/// What the keys that act on the selected entry do, when a line within the
/// list is selected: `s` packs that entry and changes nothing; `d` moves that
/// entry to the trash and takes exactly it off the list, keeping the
/// directory shown, the selection and every other entry; Enter or right opens
/// that entry, with its first line selected, when it is a directory, and
/// changes nothing otherwise.
pub proof fn lemma_keys_act_on_selection(b: BrowserView)
    requires
        b.ready(),
        b.valid_selection(),
    ensures
        ({
            let i = b.selected->0 as int;
            let e = b.entries()[i];
            &&& spec_step(b, Key::Save) == (b, TuiAction::SaveEntry(e))
            &&& spec_step(b, Key::Delete).1 == TuiAction::DeleteEntry(e)
            &&& spec_step(b, Key::Delete).0.current == b.current
            &&& spec_step(b, Key::Delete).0.selected == b.selected
            &&& spec_step(b, Key::Delete).0.nodes.len() == b.nodes.len()
            &&& spec_step(b, Key::Delete).0.entries() == b.entries().remove(i)
            &&& spec_step(b, Key::Delete).0.entries().len() + 1 == b.entries().len()
            &&& forall|j: int|
                0 <= j < b.nodes.len() && j != b.current ==> #[trigger] spec_step(
                    b,
                    Key::Delete,
                ).0.nodes[j] == b.nodes[j]
            &&& b.nodes[e as int].is_dir ==> spec_step(b, Key::Open) == (
                BrowserView { current: e, selected: Some(0), ..b },
                TuiAction::Enter(e),
            )
            &&& !b.nodes[e as int].is_dir ==> spec_step(b, Key::Open) == (b, TuiAction::Nothing)
        }),
{
}

/// Without a selected line within the list, the keys that act on the
/// selected entry do nothing but report it.
pub proof fn lemma_keys_need_selection(b: BrowserView)
    requires
        b.ready(),
        !b.valid_selection(),
    ensures
        spec_step(b, Key::Save) == (b, TuiAction::NoSelection),
        spec_step(b, Key::Delete) == (b, TuiAction::NoSelection),
        spec_step(b, Key::Open) == (b, TuiAction::NoSelection),
{
}

/// The other keys: `q`/Esc quits, the arrows up and down leave the browser to
/// the list widget, left goes to the parent with its first line selected (and
/// does nothing at the top), and any other key does nothing. None of them
/// changes the tree.
pub proof fn lemma_other_keys(b: BrowserView)
    requires
        b.ready(),
    ensures
        spec_step(b, Key::Quit) == (b, TuiAction::Quit),
        spec_step(b, Key::Up) == (b, TuiAction::SelectPrevious),
        spec_step(b, Key::Down) == (b, TuiAction::SelectNext),
        spec_step(b, Key::Other) == (b, TuiAction::Nothing),
        b.nodes[b.current as int].parent matches Some(p) ==> spec_step(b, Key::Back) == (
            BrowserView { current: p, selected: Some(0), ..b },
            TuiAction::Leave,
        ),
        b.nodes[b.current as int].parent is None ==> spec_step(b, Key::Back) == (b, TuiAction::Nothing),
{
}

} // verus!
