//! The directive-tree model: values made of literal and variable segments,
//! directive items (a closed union over the kinds the engine understands
//! structurally), and directives carrying a source position.  Every type has
//! a mathematical view used by the contracts of the rewrite rules.
use vstd::prelude::*;

use crate::text::{ident_char, plain_char};

verus! {

// ---------------------------------------------------------------- ghost views

/// One segment of a value: literal text or a variable reference.
pub enum SegView {
    Lit(Seq<char>),
    Var(Seq<char>),
}

/// A value is an ordered sequence of segments.
pub type ValueView = Seq<SegView>;

/// One `server_name` pattern.
pub enum PatView {
    Exact(Seq<char>),
    Suffix(Seq<char>),
    StarSuffix(Seq<char>),
    StarPrefix(Seq<char>),
    Regex(Seq<char>),
}

/// An `if` condition: equality or inequality against a literal, or any other
/// condition kind kept as raw text.
pub enum CondView {
    Eq(ValueView, Seq<char>),
    Neq(ValueView, Seq<char>),
    Other(Seq<char>),
}

/// The view of a directive item.
pub enum ItemView {
    Listen(Seq<char>),
    ServerName(Seq<PatView>),
    ProxyPass(ValueView),
    If(CondView, Seq<DirView>),
    Rewrite(Seq<char>, ValueView, Option<Seq<char>>),
    Include(ValueView),
    Block(Seq<char>, Seq<char>, Seq<DirView>),
    Unknown(Seq<char>, Seq<ValueView>),
    Raw(Seq<char>, Seq<char>),
}

/// The view of a directive: its source position and its item.
pub struct DirView {
    pub line: u64,
    pub column: u64,
    pub item: ItemView,
}

// ---------------------------------------------------------------- exec types

/// One segment of a value: literal text or a variable reference.
#[derive(Debug)]
pub enum Segment {
    Lit(String),
    Var(String),
}

/// A configuration value: an ordered sequence of literal-text and
/// variable-reference segments.
#[derive(Debug)]
pub struct Value {
    pub segs: Vec<Segment>,
}

/// One `server_name` pattern.
#[derive(Debug)]
pub enum ServerNamePattern {
    Exact(String),
    Suffix(String),
    StarSuffix(String),
    StarPrefix(String),
    Regex(String),
}

/// An `if` condition.
#[derive(Debug)]
pub enum Cond {
    Eq(Value, String),
    Neq(Value, String),
    Other(String),
}

/// One directive item.  Block kinds own their ordered child list; any
/// directive not otherwise modeled is `Unknown` (name plus value arguments)
/// or `Raw` (name plus its verbatim text).
#[derive(Debug)]
pub enum Item {
    /// `listen` with its raw argument text.
    Listen(String),
    /// `server_name` with its patterns.
    ServerName(Vec<ServerNamePattern>),
    /// `proxy_pass` with its destination value.
    ProxyPass(Value),
    /// `if (condition) { children }`.
    If(Cond, Vec<Directive>),
    /// `rewrite pattern replacement [flag]`.
    Rewrite(String, Value, Option<String>),
    /// `include path`.
    Include(Value),
    /// A block directive: name, raw header text, children.
    Block(String, String, Vec<Directive>),
    /// Any other directive: name and value arguments.
    Unknown(String, Vec<Value>),
    /// Any other directive kept verbatim: name and full raw text.
    Raw(String, String),
}

/// One configuration statement: a source position and an item.
#[derive(Debug)]
pub struct Directive {
    pub line: u64,
    pub column: u64,
    pub item: Item,
}

// ---------------------------------------------------------------- view impls

impl View for Segment {
    type V = SegView;

    open spec fn view(&self) -> SegView {
        match self {
            Segment::Lit(s) => SegView::Lit(s@),
            Segment::Var(s) => SegView::Var(s@),
        }
    }
}

impl View for Value {
    type V = ValueView;

    open spec fn view(&self) -> ValueView {
        self.segs@.map_values(|s: Segment| s@)
    }
}

impl View for ServerNamePattern {
    type V = PatView;

    open spec fn view(&self) -> PatView {
        match self {
            ServerNamePattern::Exact(s) => PatView::Exact(s@),
            ServerNamePattern::Suffix(s) => PatView::Suffix(s@),
            ServerNamePattern::StarSuffix(s) => PatView::StarSuffix(s@),
            ServerNamePattern::StarPrefix(s) => PatView::StarPrefix(s@),
            ServerNamePattern::Regex(s) => PatView::Regex(s@),
        }
    }
}

impl View for Cond {
    type V = CondView;

    open spec fn view(&self) -> CondView {
        match self {
            Cond::Eq(v, s) => CondView::Eq(v@, s@),
            Cond::Neq(v, s) => CondView::Neq(v@, s@),
            Cond::Other(s) => CondView::Other(s@),
        }
    }
}

/// The view of an item, descending into child directives.
pub open spec fn item_view(i: Item) -> ItemView
    decreases i,
{
    match i {
        Item::Listen(a) => ItemView::Listen(a@),
        Item::ServerName(ps) => ItemView::ServerName(ps@.map_values(|p: ServerNamePattern| p@)),
        Item::ProxyPass(v) => ItemView::ProxyPass(v@),
        Item::If(c, ch) => ItemView::If(c@, dirs_view(ch@)),
        Item::Rewrite(p, r, f) => ItemView::Rewrite(
            p@,
            r@,
            match f {
                Some(s) => Some(s@),
                None => None,
            },
        ),
        Item::Include(v) => ItemView::Include(v@),
        Item::Block(n, h, ch) => ItemView::Block(n@, h@, dirs_view(ch@)),
        Item::Unknown(n, args) => ItemView::Unknown(n@, args@.map_values(|v: Value| v@)),
        Item::Raw(n, t) => ItemView::Raw(n@, t@),
    }
}

/// The view of a directive.
pub open spec fn dir_view(d: Directive) -> DirView
    decreases d,
{
    DirView { line: d.line, column: d.column, item: item_view(d.item) }
}

/// The views of a directive list, in order.
pub open spec fn dirs_view(ds: Seq<Directive>) -> Seq<DirView>
    decreases ds,
{
    if ds.len() == 0 {
        Seq::empty()
    } else {
        seq![dir_view(ds[0])] + dirs_view(ds.drop_first())
    }
}

impl View for Directive {
    type V = DirView;

    open spec fn view(&self) -> DirView {
        dir_view(*self)
    }
}

/// `dirs_view` indexes pointwise.
pub proof fn lemma_dirs_view_index(ds: Seq<Directive>)
    ensures
        dirs_view(ds).len() == ds.len(),
        forall|i: int| 0 <= i < ds.len() ==> dirs_view(ds)[i] == dir_view(ds[i]),
    decreases ds,
{
    if ds.len() > 0 {
        lemma_dirs_view_index(ds.drop_first());
    }
}

/// `dirs_view` distributes over `push`.
pub proof fn lemma_dirs_view_push(ds: Seq<Directive>, d: Directive)
    ensures
        dirs_view(ds.push(d)) == dirs_view(ds).push(dir_view(d)),
{
    lemma_dirs_view_index(ds);
    lemma_dirs_view_index(ds.push(d));
    assert(dirs_view(ds.push(d)) =~= dirs_view(ds).push(dir_view(d)));
}

// ---------------------------------------------------------------- well-formed

/// A well-formed segment: a non-empty literal of plain characters, or a
/// non-empty variable name of identifier characters.
pub open spec fn wf_seg(s: SegView) -> bool {
    match s {
        SegView::Lit(t) => t.len() > 0 && forall|i: int| 0 <= i < t.len() ==> plain_char(t[i]),
        SegView::Var(n) => n.len() > 0 && forall|i: int| 0 <= i < n.len() ==> ident_char(n[i]),
    }
}

/// A well-formed value: every segment well-formed and no two adjacent
/// literals (so the rendered text re-parses to the same segments).
pub open spec fn wf_value(v: ValueView) -> bool {
    (forall|i: int| 0 <= i < v.len() ==> wf_seg(#[trigger] v[i])) && (forall|i: int|
        0 < i < v.len() ==> !((#[trigger] v[i]) is Lit && v[i - 1] is Lit))
}

// ---------------------------------------------------------------- deep clone

impl Segment {
    /// A copy of this segment.
    pub fn deep_clone(&self) -> (r: Segment)
        ensures
            r@ == self@,
    {
        match self {
            Segment::Lit(s) => Segment::Lit(s.clone()),
            Segment::Var(s) => Segment::Var(s.clone()),
        }
    }
}

impl Value {
    /// A copy of this value.
    pub fn deep_clone(&self) -> (r: Value)
        ensures
            r@ == self@,
    {
        let mut segs: Vec<Segment> = Vec::new();
        let mut i: usize = 0;
        while i < self.segs.len()
            invariant
                0 <= i <= self.segs@.len(),
                segs@.len() == i,
                forall|j: int| 0 <= j < i ==> segs@[j]@ == self.segs@[j]@,
            decreases self.segs@.len() - i,
        {
            segs.push(self.segs[i].deep_clone());
            i = i + 1;
        }
        proof {
            assert(segs@.map_values(|s: Segment| s@) =~= self@);
        }
        Value { segs }
    }
}

impl ServerNamePattern {
    /// A copy of this pattern.
    pub fn deep_clone(&self) -> (r: ServerNamePattern)
        ensures
            r@ == self@,
    {
        match self {
            ServerNamePattern::Exact(s) => ServerNamePattern::Exact(s.clone()),
            ServerNamePattern::Suffix(s) => ServerNamePattern::Suffix(s.clone()),
            ServerNamePattern::StarSuffix(s) => ServerNamePattern::StarSuffix(s.clone()),
            ServerNamePattern::StarPrefix(s) => ServerNamePattern::StarPrefix(s.clone()),
            ServerNamePattern::Regex(s) => ServerNamePattern::Regex(s.clone()),
        }
    }
}

impl Cond {
    /// A copy of this condition.
    pub fn deep_clone(&self) -> (r: Cond)
        ensures
            r@ == self@,
    {
        match self {
            Cond::Eq(v, s) => Cond::Eq(v.deep_clone(), s.clone()),
            Cond::Neq(v, s) => Cond::Neq(v.deep_clone(), s.clone()),
            Cond::Other(s) => Cond::Other(s.clone()),
        }
    }
}

impl Item {
    /// A deep copy of this item and its child directives.
    pub fn deep_clone(&self) -> (r: Item)
        ensures
            item_view(r) == item_view(*self),
        decreases *self,
    {
        match self {
            Item::Listen(a) => Item::Listen(a.clone()),
            Item::ServerName(ps) => {
                let mut out: Vec<ServerNamePattern> = Vec::new();
                let mut i: usize = 0;
                while i < ps.len()
                    invariant
                        0 <= i <= ps@.len(),
                        out@.len() == i,
                        forall|j: int| 0 <= j < i ==> out@[j]@ == ps@[j]@,
                    decreases ps@.len() - i,
                {
                    out.push(ps[i].deep_clone());
                    i = i + 1;
                }
                proof {
                    assert(out@.map_values(|p: ServerNamePattern| p@) =~= ps@.map_values(
                        |p: ServerNamePattern| p@,
                    ));
                }
                Item::ServerName(out)
            },
            Item::ProxyPass(v) => Item::ProxyPass(v.deep_clone()),
            Item::If(c, ch) => Item::If(c.deep_clone(), clone_dirs(ch)),
            Item::Rewrite(p, r, f) => Item::Rewrite(
                p.clone(),
                r.deep_clone(),
                match f {
                    Some(s) => Some(s.clone()),
                    None => None,
                },
            ),
            Item::Include(v) => Item::Include(v.deep_clone()),
            Item::Block(n, h, ch) => Item::Block(n.clone(), h.clone(), clone_dirs(ch)),
            Item::Unknown(n, args) => {
                let mut out: Vec<Value> = Vec::new();
                let mut i: usize = 0;
                while i < args.len()
                    invariant
                        0 <= i <= args@.len(),
                        out@.len() == i,
                        forall|j: int| 0 <= j < i ==> out@[j]@ == args@[j]@,
                    decreases args@.len() - i,
                {
                    out.push(args[i].deep_clone());
                    i = i + 1;
                }
                proof {
                    assert(out@.map_values(|v: Value| v@) =~= args@.map_values(|v: Value| v@));
                }
                Item::Unknown(n.clone(), out)
            },
            Item::Raw(n, t) => Item::Raw(n.clone(), t.clone()),
        }
    }
}

impl Directive {
    /// A deep copy of this directive.
    pub fn deep_clone(&self) -> (r: Directive)
        ensures
            r@ == self@,
        decreases *self,
    {
        Directive { line: self.line, column: self.column, item: self.item.deep_clone() }
    }
}

/// Deep copies of a directive list.
pub fn clone_dirs(ds: &Vec<Directive>) -> (r: Vec<Directive>)
    ensures
        dirs_view(r@) == dirs_view(ds@),
    decreases ds@,
{
    let mut out: Vec<Directive> = Vec::new();
    let mut i: usize = 0;
    while i < ds.len()
        invariant
            0 <= i <= ds@.len(),
            dirs_view(out@) =~= dirs_view(ds@.subrange(0, i as int)),
        decreases ds@.len() - i,
    {
        proof {
            assert(decreases_to!(ds@ => ds@[i as int]));
        }
        let d = ds[i].deep_clone();
        proof {
            lemma_dirs_view_push(out@, d);
            lemma_dirs_view_index(ds@.subrange(0, i as int));
            lemma_dirs_view_index(ds@.subrange(0, i + 1 as int));
            lemma_dirs_view_index(ds@);
        }
        out.push(d);
        i = i + 1;
    }
    proof {
        assert(ds@.subrange(0, ds@.len() as int) =~= ds@);
    }
    out
}

} // verus!
