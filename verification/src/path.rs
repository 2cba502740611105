//! File-system paths as sequences of components, with the equality and the
//! order of `std::path::Path` (component by component).

use vstd::prelude::*;

use crate::text::{chars_before, compare_strs, lemma_chars_before_asymmetric, lemma_chars_before_irreflexive, lemma_chars_before_total, lemma_chars_before_transitive, Order};

verus! {

/// One component of a path, as `std::path::Component` has it.
#[derive(Debug, PartialEq, Eq)]
pub enum PathPart {
    /// A platform prefix such as `C:`, by its text.
    Prefix(String),
    /// The root directory.
    RootDir,
    /// `.`
    CurDir,
    /// `..`
    ParentDir,
    /// A file or directory name.
    Normal(String),
}

/// The value of a path component.
pub enum PartView {
    Prefix(Seq<char>),
    RootDir,
    CurDir,
    ParentDir,
    Normal(Seq<char>),
}

impl View for PathPart {
    type V = PartView;

    open spec fn view(&self) -> PartView {
        match self {
            PathPart::Prefix(s) => PartView::Prefix(s@),
            PathPart::RootDir => PartView::RootDir,
            PathPart::CurDir => PartView::CurDir,
            PathPart::ParentDir => PartView::ParentDir,
            PathPart::Normal(s) => PartView::Normal(s@),
        }
    }
}

impl Clone for PathPart {
    fn clone(&self) -> (r: Self)
        ensures
            r@ == self@,
    {
        match self {
            PathPart::Prefix(s) => PathPart::Prefix(s.clone()),
            PathPart::RootDir => PathPart::RootDir,
            PathPart::CurDir => PathPart::CurDir,
            PathPart::ParentDir => PathPart::ParentDir,
            PathPart::Normal(s) => PathPart::Normal(s.clone()),
        }
    }
}

/// A path: its components, in order.
#[derive(Debug, PartialEq, Eq)]
pub struct FsPath {
    pub parts: Vec<PathPart>,
}

impl View for FsPath {
    type V = Seq<PartView>;

    open spec fn view(&self) -> Seq<PartView> {
        self.parts@.map_values(|p: PathPart| p@)
    }
}

impl Clone for FsPath {
    fn clone(&self) -> (r: Self)
        ensures
            r@ == self@,
    {
        let mut parts: Vec<PathPart> = Vec::new();
        let mut i: usize = 0;
        while i < self.parts.len()
            invariant
                i <= self.parts.len(),
                parts@.len() == i,
                forall|j: int| 0 <= j < i ==> #[trigger] parts@[j]@ == self.parts@[j]@,
            decreases self.parts.len() - i,
        {
            parts.push(self.parts[i].clone());
            i = i + 1;
        }
        let r = FsPath { parts };
        assert(r@ =~= self@);
        r
    }
}

/// Position of a component kind in the order of `std::path::Component`.
pub open spec fn part_rank(p: PartView) -> int {
    match p {
        PartView::Prefix(_) => 0,
        PartView::RootDir => 1,
        PartView::CurDir => 2,
        PartView::ParentDir => 3,
        PartView::Normal(_) => 4,
    }
}

/// The text carried by a component (empty for the fixed ones).
pub open spec fn part_text(p: PartView) -> Seq<char> {
    match p {
        PartView::Prefix(s) => s,
        PartView::Normal(s) => s,
        _ => Seq::empty(),
    }
}

/// Strict order of components: by kind, then by text.
pub open spec fn part_before(a: PartView, b: PartView) -> bool {
    part_rank(a) < part_rank(b) || (part_rank(a) == part_rank(b) && chars_before(
        part_text(a),
        part_text(b),
    ))
}

proof fn lemma_part_eq(a: PartView, b: PartView)
    requires
        part_rank(a) == part_rank(b),
        part_text(a) == part_text(b),
    ensures
        a == b,
{
}

/// Strict lexicographic order of paths, component by component.
pub open spec fn path_before(a: Seq<PartView>, b: Seq<PartView>) -> bool
    decreases a.len(),
{
    if a.len() == 0 {
        b.len() > 0
    } else if b.len() == 0 {
        false
    } else if a[0] != b[0] {
        part_before(a[0], b[0])
    } else {
        path_before(a.drop_first(), b.drop_first())
    }
}

pub proof fn lemma_part_before_facts(a: PartView, b: PartView, c: PartView)
    ensures
        !part_before(a, a),
        part_before(a, b) ==> !part_before(b, a),
        a == b || part_before(a, b) || part_before(b, a),
        part_before(a, b) && part_before(b, c) ==> part_before(a, c),
{
    lemma_chars_before_irreflexive(part_text(a));
    if part_before(a, b) && part_rank(a) == part_rank(b) {
        lemma_chars_before_asymmetric(part_text(a), part_text(b));
    }
    lemma_chars_before_total(part_text(a), part_text(b));
    if part_rank(a) == part_rank(b) && part_text(a) == part_text(b) {
        lemma_part_eq(a, b);
    }
    if part_before(a, b) && part_before(b, c) && part_rank(a) == part_rank(b) && part_rank(b)
        == part_rank(c) {
        lemma_chars_before_transitive(part_text(a), part_text(b), part_text(c));
    }
}

pub proof fn lemma_path_before_irreflexive(a: Seq<PartView>)
    ensures
        !path_before(a, a),
    decreases a.len(),
{
    if a.len() > 0 {
        lemma_path_before_irreflexive(a.drop_first());
    }
}

pub proof fn lemma_path_before_asymmetric(a: Seq<PartView>, b: Seq<PartView>)
    requires
        path_before(a, b),
    ensures
        !path_before(b, a),
    decreases a.len(),
{
    if a.len() > 0 && b.len() > 0 {
        if a[0] == b[0] {
            lemma_path_before_asymmetric(a.drop_first(), b.drop_first());
        } else {
            lemma_part_before_facts(a[0], b[0], b[0]);
        }
    }
}

pub proof fn lemma_path_before_total(a: Seq<PartView>, b: Seq<PartView>)
    ensures
        a == b || path_before(a, b) || path_before(b, a),
    decreases a.len(),
{
    if a.len() > 0 && b.len() > 0 {
        if a[0] == b[0] {
            lemma_path_before_total(a.drop_first(), b.drop_first());
            if a.drop_first() == b.drop_first() {
                assert(a =~= seq![a[0]] + a.drop_first());
                assert(b =~= seq![b[0]] + b.drop_first());
            }
        } else {
            lemma_part_before_facts(a[0], b[0], b[0]);
        }
    } else if a.len() == 0 && b.len() == 0 {
        assert(a =~= b);
    }
}

pub proof fn lemma_path_before_transitive(a: Seq<PartView>, b: Seq<PartView>, c: Seq<PartView>)
    requires
        path_before(a, b),
        path_before(b, c),
    ensures
        path_before(a, c),
    decreases a.len(),
{
    if a.len() > 0 && b.len() > 0 && c.len() > 0 {
        lemma_part_before_facts(a[0], b[0], c[0]);
        if a[0] == b[0] && b[0] == c[0] {
            lemma_path_before_transitive(a.drop_first(), b.drop_first(), c.drop_first());
        }
    }
}

fn part_rank_of(p: &PathPart) -> (r: u8)
    ensures
        r as int == part_rank(p@),
{
    match p {
        PathPart::Prefix(_) => 0,
        PathPart::RootDir => 1,
        PathPart::CurDir => 2,
        PathPart::ParentDir => 3,
        PathPart::Normal(_) => 4,
    }
}

fn part_text_of(p: &PathPart) -> (r: &str)
    ensures
        r@ == part_text(p@),
{
    match p {
        PathPart::Prefix(s) => s.as_str(),
        PathPart::Normal(s) => s.as_str(),
        _ => {
            proof {
                reveal_strlit("");
            }
            ""
        },
    }
}

/// Three-way comparison of components.
pub fn compare_parts(a: &PathPart, b: &PathPart) -> (r: Order)
    ensures
        (r == Order::Less) == part_before(a@, b@),
        (r == Order::Equal) == (a@ == b@),
        (r == Order::Greater) == part_before(b@, a@),
{
    proof {
        lemma_part_before_facts(a@, b@, b@);
        lemma_part_before_facts(b@, a@, a@);
    }
    let ra = part_rank_of(a);
    let rb = part_rank_of(b);
    if ra < rb {
        Order::Less
    } else if rb < ra {
        Order::Greater
    } else {
        let r = compare_strs(part_text_of(a), part_text_of(b));
        proof {
            if part_text(a@) == part_text(b@) {
                lemma_part_eq(a@, b@);
            }
        }
        r
    }
}

/// Three-way comparison of paths, component by component (the order of
/// `Path`'s `cmp`).
pub fn compare_paths(a: &FsPath, b: &FsPath) -> (r: Order)
    ensures
        (r == Order::Less) == path_before(a@, b@),
        (r == Order::Equal) == (a@ == b@),
        (r == Order::Greater) == path_before(b@, a@),
{
    proof {
        lemma_path_before_total(a@, b@);
        if path_before(a@, b@) {
            lemma_path_before_asymmetric(a@, b@);
        }
        if a@ == b@ {
            lemma_path_before_irreflexive(a@);
        }
    }
    let n = a.parts.len();
    let m = b.parts.len();
    let mut i: usize = 0;
    assert(a@.skip(0) =~= a@);
    assert(b@.skip(0) =~= b@);
    while i < n && i < m
        invariant
            n == a@.len(),
            m == b@.len(),
            n == a.parts.len(),
            m == b.parts.len(),
            i <= n,
            i <= m,
            a@.take(i as int) =~= b@.take(i as int),
            path_before(a@, b@) == path_before(a@.skip(i as int), b@.skip(i as int)),
            path_before(b@, a@) == path_before(b@.skip(i as int), a@.skip(i as int)),
        decreases n - i,
    {
        let o = compare_parts(&a.parts[i], &b.parts[i]);
        proof {
            assert(a@[i as int] == a.parts@[i as int]@);
            assert(b@[i as int] == b.parts@[i as int]@);
            assert(a@.skip(i as int)[0] == a@[i as int]);
            assert(b@.skip(i as int)[0] == b@[i as int]);
        }
        match o {
            Order::Less => {
                assert(a@ != b@);
                return Order::Less;
            },
            Order::Greater => {
                assert(a@ != b@);
                return Order::Greater;
            },
            Order::Equal => {},
        }
        proof {
            assert(a@.skip(i as int).drop_first() =~= a@.skip(i + 1));
            assert(b@.skip(i as int).drop_first() =~= b@.skip(i + 1));
            assert(a@.take(i + 1) =~= a@.take(i as int).push(a@[i as int]));
            assert(b@.take(i + 1) =~= b@.take(i as int).push(b@[i as int]));
        }
        i = i + 1;
    }
    if n == m {
        proof {
            assert(a@ =~= a@.take(i as int));
            assert(b@ =~= b@.take(i as int));
        }
        Order::Equal
    } else if n < m {
        proof {
            assert(a@.skip(i as int).len() == 0);
            if a@ == b@ {
                assert(false);
            }
        }
        Order::Less
    } else {
        proof {
            assert(b@.skip(i as int).len() == 0);
        }
        Order::Greater
    }
}

/// Whether two paths are the same path (componentwise equal).
pub fn same_path(a: &FsPath, b: &FsPath) -> (r: bool)
    ensures
        r == (a@ == b@),
{
    match compare_paths(a, b) {
        Order::Equal => true,
        _ => false,
    }
}

impl FsPath {
    /// A path made of the given components.
    pub fn from_parts(parts: Vec<PathPart>) -> (r: FsPath)
        ensures
            r.parts@ == parts@,
    {
        FsPath { parts }
    }

    /// This path with one more name component at its end
    /// (`Path::join` with a plain file or directory name).
    pub fn join(&self, name: &str) -> (r: FsPath)
        ensures
            r@ == self@.push(PartView::Normal(name@)),
    {
        let mut r = self.clone();
        r.parts.push(PathPart::Normal(name.to_owned()));
        assert(r@ =~= self@.push(PartView::Normal(name@)));
        r
    }
}

} // verus!
