use vstd::prelude::*;

verus! {

/// A path of the tree of entries: the sequence of segment names from the root
/// (`Path<HCons<S1, HCons<S2, ... HNil>>>` in type form is `[S1, S2, ...]` here).
pub struct Path {
    segments: Vec<String>,
}

impl View for Path {
    type V = Seq<Seq<char>>;

    closed spec fn view(&self) -> Seq<Seq<char>> {
        self.segments@.map_values(|s: String| s@)
    }
}

/// `DebugPath::get_name`: the names of the segments run together, closed by `:`.
pub open spec fn spec_get_name(p: Seq<Seq<char>>) -> Seq<char>
    decreases p.len(),
{
    if p.len() == 0 {
        seq![':']
    } else {
        p[0] + spec_get_name(p.drop_first())
    }
}

/// `DebugPath::fmt_path`: each segment name followed by `/`, closed by `-`.
pub open spec fn spec_fmt_path(p: Seq<Seq<char>>) -> Seq<char>
    decreases p.len(),
{
    if p.len() == 0 {
        seq!['-']
    } else {
        p[0] + seq!['/'] + spec_fmt_path(p.drop_first())
    }
}

/// The `Debug` text of a path: `/` then its `fmt_path`.
pub open spec fn spec_debug_text(p: Seq<Seq<char>>) -> Seq<char> {
    seq!['/'] + spec_fmt_path(p)
}

/// The serialized form of a path: `/` then its `get_name`.
pub open spec fn spec_serialized(p: Seq<Seq<char>>) -> Seq<char> {
    seq!['/'] + spec_get_name(p)
}

/// `ChildOfInner<P>` for a list `l`, as its impls define it: the one-element list is an inner
/// child of the empty list, and `h :: t` is an inner child of `p` when `t` is.
pub open spec fn spec_child_of_inner(l: Seq<Seq<char>>, p: Seq<Seq<char>>) -> bool
    decreases l.len(),
{
    if l.len() == 0 {
        false
    } else if l.len() == 1 && p.len() == 0 {
        true
    } else {
        spec_child_of_inner(l.drop_first(), p)
    }
}

/// `ChildOf<P>` for `Path<O>`: the reversed `O` is an inner child of the reversed `P`.
pub open spec fn spec_child_of(o: Seq<Seq<char>>, p: Seq<Seq<char>>) -> bool {
    spec_child_of_inner(o.reverse(), p.reverse())
}

/// What `ChildOfInner` comes to: the list is not empty and the parent is.
pub proof fn lemma_child_of_inner_holds(l: Seq<Seq<char>>, p: Seq<Seq<char>>)
    ensures
        spec_child_of_inner(l, p) <==> (l.len() > 0 && p.len() == 0),
    decreases l.len(),
{
    if l.len() > 0 {
        lemma_child_of_inner_holds(l.drop_first(), p);
    }
}

/// A path is a `ChildOf` another exactly when it is not the root and the other is the root.
pub proof fn lemma_child_of_holds(o: Seq<Seq<char>>, p: Seq<Seq<char>>)
    ensures
        spec_child_of(o, p) <==> (o.len() > 0 && p.len() == 0),
{
    lemma_child_of_inner_holds(o.reverse(), p.reverse());
}

/// The name of a path is its segment names written one after another, then `:`.
pub proof fn lemma_get_name_flatten(p: Seq<Seq<char>>)
    ensures
        spec_get_name(p) == p.flatten() + seq![':'],
    decreases p.len(),
{
    if p.len() > 0 {
        lemma_get_name_flatten(p.drop_first());
        assert(spec_get_name(p) =~= p.flatten() + seq![':']);
    } else {
        assert(spec_get_name(p) =~= p.flatten() + seq![':']);
    }
}

/// The `fmt_path` text of a path is each segment name followed by `/`, one after another,
/// then `-`.
pub proof fn lemma_fmt_path_flatten(p: Seq<Seq<char>>)
    ensures
        spec_fmt_path(p) == p.map_values(|s: Seq<char>| s + seq!['/']).flatten() + seq!['-'],
    decreases p.len(),
{
    let m = p.map_values(|s: Seq<char>| s + seq!['/']);
    if p.len() > 0 {
        lemma_fmt_path_flatten(p.drop_first());
        assert(m.drop_first() =~= p.drop_first().map_values(|s: Seq<char>| s + seq!['/']));
        assert(m.first() == p[0] + seq!['/']);
        assert(spec_fmt_path(p) =~= m.flatten() + seq!['-']);
    } else {
        assert(m =~= Seq::<Seq<char>>::empty());
        assert(spec_fmt_path(p) =~= m.flatten() + seq!['-']);
    }
}

/// The serialized form of a path is `/`, then its segment names one after another, then `:`;
/// its debug text is `/`, then each segment name followed by `/`, then `-`. So a path of one
/// segment `s` serializes as `/s:`.
pub proof fn lemma_path_texts(p: Seq<Seq<char>>)
    ensures
        spec_serialized(p) == seq!['/'] + p.flatten() + seq![':'],
        spec_debug_text(p) == seq!['/'] + p.map_values(|s: Seq<char>| s + seq!['/']).flatten()
            + seq!['-'],
        p.len() == 1 ==> spec_serialized(p) == seq!['/'] + p[0] + seq![':'],
{
    lemma_get_name_flatten(p);
    lemma_fmt_path_flatten(p);
    assert(spec_serialized(p) =~= seq!['/'] + p.flatten() + seq![':']);
    assert(spec_debug_text(p) =~= seq!['/'] + p.map_values(|s: Seq<char>| s + seq!['/']).flatten()
        + seq!['-']);
    if p.len() == 1 {
        p.lemma_flatten_one_element();
    }
}

/// The name of a path made of two parts: the segment names of the first part, then the name
/// of the second part (whose `:` closes the whole).
pub proof fn lemma_get_name_concat(p: Seq<Seq<char>>, q: Seq<Seq<char>>)
    ensures
        spec_get_name(p + q) == spec_get_name(p).drop_last() + spec_get_name(q),
    decreases p.len(),
{
    if p.len() == 0 {
        assert(p + q =~= q);
        assert(spec_get_name(p).drop_last() =~= Seq::<char>::empty());
    } else {
        assert((p + q).drop_first() =~= p.drop_first() + q);
        lemma_get_name_concat(p.drop_first(), q);
        assert(spec_get_name(p).drop_last() =~= p[0] + spec_get_name(p.drop_first()).drop_last()) by {
            lemma_get_name_nonempty(p.drop_first());
        }
        assert(spec_get_name(p + q) =~= spec_get_name(p).drop_last() + spec_get_name(q));
    }
}

proof fn lemma_get_name_nonempty(p: Seq<Seq<char>>)
    ensures
        spec_get_name(p).len() > 0,
    decreases p.len(),
{
    if p.len() > 0 {
        lemma_get_name_nonempty(p.drop_first());
    }
}

/// The `fmt_path` text of a path made of two parts: that of the first part without its
/// closing `-`, then that of the second part.
pub proof fn lemma_fmt_path_concat(p: Seq<Seq<char>>, q: Seq<Seq<char>>)
    ensures
        spec_fmt_path(p + q) == spec_fmt_path(p).drop_last() + spec_fmt_path(q),
    decreases p.len(),
{
    if p.len() == 0 {
        assert(p + q =~= q);
        assert(spec_fmt_path(p).drop_last() =~= Seq::<char>::empty());
    } else {
        assert((p + q).drop_first() =~= p.drop_first() + q);
        lemma_fmt_path_concat(p.drop_first(), q);
        lemma_fmt_path_nonempty(p.drop_first());
        assert(spec_fmt_path(p).drop_last() =~= p[0] + seq!['/'] + spec_fmt_path(p.drop_first()).drop_last());
        assert(spec_fmt_path(p + q) =~= spec_fmt_path(p).drop_last() + spec_fmt_path(q));
    }
}

proof fn lemma_fmt_path_nonempty(p: Seq<Seq<char>>)
    ensures
        spec_fmt_path(p).len() > 0,
    decreases p.len(),
{
    if p.len() > 0 {
        lemma_fmt_path_nonempty(p.drop_first());
    }
}

proof fn lemma_get_name_step(p: Seq<Seq<char>>, i: int)
    requires
        0 <= i < p.len(),
    ensures
        spec_get_name(p.skip(i)) == p[i] + spec_get_name(p.skip(i + 1)),
{
    assert(p.skip(i).drop_first() =~= p.skip(i + 1));
}

proof fn lemma_fmt_path_step(p: Seq<Seq<char>>, i: int)
    requires
        0 <= i < p.len(),
    ensures
        spec_fmt_path(p.skip(i)) == p[i] + seq!['/'] + spec_fmt_path(p.skip(i + 1)),
{
    assert(p.skip(i).drop_first() =~= p.skip(i + 1));
}

impl Clone for Path {
    fn clone(&self) -> (res: Self)
        ensures
            res@ == self@,
    {
        let mut segments: Vec<String> = Vec::new();
        let n = self.segments.len();
        for i in 0..n
            invariant
                n == self.segments@.len(),
                segments@.len() == i,
                forall|j: int| 0 <= j < i ==> #[trigger] segments@[j]@ == self.segments@[j]@,
        {
            segments.push(self.segments[i].clone());
        }
        let res = Path { segments };
        assert(res@ =~= self@);
        res
    }
}

impl Path {
    /// The root path (`Path<HNil>`).
    pub fn root() -> (res: Path)
        ensures
            res@ == Seq::<Seq<char>>::empty(),
    {
        let res = Path { segments: Vec::new() };
        assert(res@ =~= Seq::<Seq<char>>::empty());
        res
    }

    /// The path with the given segment names, from the root down.
    pub fn new(segments: Vec<String>) -> (res: Path)
        ensures
            res@ == segments@.map_values(|s: String| s@),
    {
        Path { segments }
    }

    /// The number of segments.
    pub fn len(&self) -> (res: usize)
        ensures
            res == self@.len(),
    {
        self.segments.len()
    }

    /// The segment names, from the root down.
    pub fn segments(&self) -> (res: Vec<String>)
        ensures
            res@.map_values(|s: String| s@) == self@,
    {
        let c = self.clone();
        c.segments
    }

    /// `H + C`: this path with one more segment at its end.
    pub fn child(&self, segment: &String) -> (res: Path)
        ensures
            res@ == self@.push(segment@),
    {
        let mut c = self.clone();
        c.segments.push(segment.clone());
        assert(c@ =~= self@.push(segment@));
        c
    }

    /// `C + P`: this path followed by the segments of `rest`.
    pub fn join(&self, rest: &Path) -> (res: Path)
        ensures
            res@ == self@ + rest@,
    {
        let mut a = self.clone();
        let mut b = rest.clone();
        a.segments.append(&mut b.segments);
        assert(a@ =~= self@ + rest@);
        a
    }

    /// `DebugPath::get_name`: the segment names run together, then `:`.
    pub fn get_name(&self) -> (res: String)
        ensures
            res@ == spec_get_name(self@),
            res@ == self@.flatten() + seq![':'],
    {
        proof {
            lemma_get_name_flatten(self@);
        }
        let mut out = String::new();
        let n = self.segments.len();
        let ghost p = self@;
        assert(p.skip(0) =~= p);
        for i in 0..n
            invariant
                n == p.len(),
                p == self@,
                spec_get_name(p) == out@ + spec_get_name(p.skip(i as int)),
        {
            proof {
                lemma_get_name_step(p, i as int);
            }
            out.append(self.segments[i].as_str());
            assert(self.segments@[i as int]@ == p[i as int]);
        }
        proof {
            reveal_strlit(":");
        }
        assert(p.skip(n as int) =~= Seq::<Seq<char>>::empty());
        out.append(":");
        out
    }

    /// `DebugPath::fmt_path`: each segment name followed by `/`, then `-`.
    pub fn fmt_path(&self) -> (res: String)
        ensures
            res@ == spec_fmt_path(self@),
    {
        let mut out = String::new();
        let n = self.segments.len();
        let ghost p = self@;
        assert(p.skip(0) =~= p);
        proof {
            reveal_strlit("/");
            reveal_strlit("-");
        }
        for i in 0..n
            invariant
                n == p.len(),
                p == self@,
                "/"@ == seq!['/'],
                spec_fmt_path(p) == out@ + spec_fmt_path(p.skip(i as int)),
        {
            proof {
                lemma_fmt_path_step(p, i as int);
            }
            out.append(self.segments[i].as_str());
            assert(self.segments@[i as int]@ == p[i as int]);
            out.append("/");
        }
        assert(p.skip(n as int) =~= Seq::<Seq<char>>::empty());
        out.append("-");
        out
    }

    /// The `Debug` text of the path: `/` followed by `fmt_path`.
    pub fn debug_text(&self) -> (res: String)
        ensures
            res@ == spec_debug_text(self@),
    {
        proof {
            reveal_strlit("/");
        }
        let mut out = String::from_str("/");
        let body = self.fmt_path();
        out.append(body.as_str());
        out
    }

    /// The serialized form of the path (its `Serialize` impl writes this string): `/` followed
    /// by `get_name`.
    pub fn serialized(&self) -> (res: String)
        ensures
            res@ == spec_serialized(self@),
            res@ == seq!['/'] + self@.flatten() + seq![':'],
    {
        proof {
            lemma_path_texts(self@);
        }
        proof {
            reveal_strlit("/");
        }
        let mut out = String::from_str("/");
        let body = self.get_name();
        out.append(body.as_str());
        out
    }

    /// `Parent`: the path without its first segment; the root has no parent.
    pub fn parent(&self) -> (res: Option<Path>)
        ensures
            self@.len() == 0 ==> res is None,
            self@.len() > 0 ==> (res matches Some(p) && p@ == self@.drop_first()),
    {
        if self.segments.len() == 0 {
            None
        } else {
            let mut c = self.clone();
            assert(c.segments@.len() == c@.len());
            c.segments.remove(0);
            assert(c@ =~= self@.drop_first());
            Some(c)
        }
    }

    /// `ChildOf<P>`: whether this path is a child of `parent` by the trait's impls.
    pub fn child_of(&self, parent: &Path) -> (res: bool)
        ensures
            res == spec_child_of(self@, parent@),
            res == (self@.len() > 0 && parent@.len() == 0),
    {
        proof {
            lemma_child_of_holds(self@, parent@);
        }
        self.segments.len() > 0 && parent.segments.len() == 0
    }
}

} // verus!
