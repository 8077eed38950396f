//! Paths below a fixed root, modelled as sequences of normal components.
use vstd::prelude::*;

verus! {

/// Free of the separator `/`.
pub open spec fn no_sep(p: Seq<char>) -> bool {
    forall|i: int| 0 <= i < p.len() ==> p[i] != '/'
}

/// A component that names an entry: not empty, free of `/`, and neither `.` nor `..`.
pub open spec fn is_normal_part(p: Seq<char>) -> bool {
    &&& p.len() > 0
    &&& no_sep(p)
    &&& p != seq!['.']
    &&& p != seq!['.', '.']
}

pub open spec fn all_normal(parts: Seq<Seq<char>>) -> bool {
    forall|i: int| 0 <= i < parts.len() ==> is_normal_part(#[trigger] parts[i])
}

/// The pieces of `s` between `/` separators, in order, empty pieces included.
pub open spec fn pieces(s: Seq<char>) -> Seq<Seq<char>>
    decreases s.len(),
{
    if s.len() == 0 {
        seq![Seq::empty()]
    } else {
        let init = pieces(s.drop_last());
        if s.last() == '/' {
            init.push(Seq::empty())
        } else {
            init.update(init.len() - 1, init.last().push(s.last()))
        }
    }
}

/// One step of lexical normalisation: `""` and `.` stay put, `..` goes up
/// (never above the top), anything else goes down.
pub open spec fn step(stack: Seq<Seq<char>>, piece: Seq<char>) -> Seq<Seq<char>> {
    if piece.len() == 0 || piece == seq!['.'] {
        stack
    } else if piece == seq!['.', '.'] {
        if stack.len() == 0 {
            stack
        } else {
            stack.drop_last()
        }
    } else {
        stack.push(piece)
    }
}

pub open spec fn walk(stack: Seq<Seq<char>>, ps: Seq<Seq<char>>) -> Seq<Seq<char>>
    decreases ps.len(),
{
    if ps.len() == 0 {
        stack
    } else {
        step(walk(stack, ps.drop_last()), ps.last())
    }
}

/// Where the text `s` leads when followed from `start`.
pub open spec fn follow(start: Seq<Seq<char>>, s: Seq<char>) -> Seq<Seq<char>> {
    walk(start, pieces(s))
}

pub open spec fn is_absolute(s: Seq<char>) -> bool {
    s.len() > 0 && s[0] == '/'
}

/// `s` joined onto `base` as a path join does (an absolute `s` replaces
/// `base`), then normalised.
pub open spec fn joined(base: Seq<Seq<char>>, s: Seq<char>) -> Seq<Seq<char>> {
    if is_absolute(s) {
        follow(Seq::empty(), s)
    } else {
        follow(base, s)
    }
}

/// Each part preceded by `/`: `""` for no parts, `/x/y` for `x`, `y`.
pub open spec fn slash_joined(parts: Seq<Seq<char>>) -> Seq<char>
    decreases parts.len(),
{
    if parts.len() == 0 {
        Seq::empty()
    } else {
        slash_joined(parts.drop_last()) + seq!['/'] + parts.last()
    }
}

pub open spec fn strings_view(v: Seq<String>) -> Seq<Seq<char>> {
    v.map_values(|p: String| p@)
}

proof fn lemma_pieces_nonempty(s: Seq<char>)
    ensures
        pieces(s).len() >= 1,
    decreases s.len(),
{
    if s.len() > 0 {
        lemma_pieces_nonempty(s.drop_last());
    }
}

proof fn lemma_pieces_no_sep(s: Seq<char>)
    ensures
        forall|k: int| 0 <= k < pieces(s).len() ==> no_sep(#[trigger] pieces(s)[k]),
    decreases s.len(),
{
    if s.len() > 0 {
        lemma_pieces_no_sep(s.drop_last());
        lemma_pieces_nonempty(s.drop_last());
        let init = pieces(s.drop_last());
        if s.last() != '/' {
            let l = init.last().push(s.last());
            assert(no_sep(init[init.len() - 1]));
            assert(no_sep(l));
        }
    }
}

proof fn lemma_walk_normal(stack: Seq<Seq<char>>, ps: Seq<Seq<char>>)
    requires
        all_normal(stack),
        forall|k: int| 0 <= k < ps.len() ==> no_sep(#[trigger] ps[k]),
    ensures
        all_normal(walk(stack, ps)),
    decreases ps.len(),
{
    if ps.len() > 0 {
        lemma_walk_normal(stack, ps.drop_last());
        assert(no_sep(ps[ps.len() - 1]));
    }
}

/// Following any text from normal parts leads to normal parts.
proof fn lemma_follow_normal(start: Seq<Seq<char>>, s: Seq<char>)
    requires
        all_normal(start),
    ensures
        all_normal(follow(start, s)),
{
    lemma_pieces_no_sep(s);
    lemma_walk_normal(start, pieces(s));
}

/// Pushes onto `stack` the parts that the text `s` leads to.
fn follow_into(stack: &mut Vec<String>, s: &str)
    ensures
        strings_view(final(stack)@) == follow(strings_view(old(stack)@), s@),
{
    let n = s.unicode_len();
    let mut start: usize = 0;
    let mut i: usize = 0;
    let ghost base = strings_view(stack@);
    proof {
        assert(s@.take(0) =~= Seq::<char>::empty());
        assert(pieces(Seq::<char>::empty()).drop_last() =~= Seq::<Seq<char>>::empty());
        assert(s@.subrange(0, 0) =~= Seq::<char>::empty());
    }
    while i < n
        invariant
            n == s@.len(),
            start <= i <= n,
            strings_view(stack@) == walk(base, pieces(s@.take(i as int)).drop_last()),
            pieces(s@.take(i as int)).last() == s@.subrange(start as int, i as int),
            base == strings_view(old(stack)@),
        decreases n - i,
    {
        let c = s.get_char(i);
        let ghost pre = s@.take(i as int);
        proof {
            assert(s@.take(i + 1).drop_last() =~= pre);
            lemma_pieces_nonempty(pre);
        }
        if c == '/' {
            let piece = s.substring_char(start, i);
            push_piece(stack, piece);
            proof {
                let ps = pieces(pre);
                assert(pieces(s@.take(i + 1)) == ps.push(Seq::empty()));
                assert(pieces(s@.take(i + 1)).drop_last() =~= ps);
                assert(ps.drop_last().push(ps.last()) =~= ps);
            }
            start = i + 1;
        } else {
            proof {
                let ps = pieces(pre);
                let ps2 = ps.update(ps.len() - 1, ps.last().push(c));
                assert(pieces(s@.take(i + 1)) == ps2);
                assert(ps2.drop_last() =~= ps.drop_last());
                assert(s@.subrange(start as int, i + 1) =~= s@.subrange(start as int, i as int).push(c));
            }
        }
        i = i + 1;
    }
    let piece = s.substring_char(start, n);
    push_piece(stack, piece);
    proof {
        assert(s@.take(n as int) =~= s@);
        let ps = pieces(s@);
        lemma_pieces_nonempty(s@);
        assert(ps.drop_last().push(ps.last()) =~= ps);
    }
}

fn is_dot(piece: &str) -> (r: bool)
    ensures
        r == (piece@ == seq!['.']),
{
    if piece.unicode_len() == 1 {
        let c = piece.get_char(0);
        proof {
            if c == '.' {
                assert(piece@ =~= seq!['.']);
            }
        }
        c == '.'
    } else {
        false
    }
}

fn is_dot_dot(piece: &str) -> (r: bool)
    ensures
        r == (piece@ == seq!['.', '.']),
{
    if piece.unicode_len() == 2 {
        let c0 = piece.get_char(0);
        let c1 = piece.get_char(1);
        proof {
            if c0 == '.' && c1 == '.' {
                assert(piece@ =~= seq!['.', '.']);
            }
        }
        c0 == '.' && c1 == '.'
    } else {
        false
    }
}

fn push_piece(stack: &mut Vec<String>, piece: &str)
    ensures
        strings_view(final(stack)@) == step(strings_view(old(stack)@), piece@),
{
    if piece.unicode_len() == 0 || is_dot(piece) {
    } else if is_dot_dot(piece) {
        if stack.len() > 0 {
            stack.pop();
            assert(strings_view(stack@) =~= strings_view(old(stack)@).drop_last());
        }
    } else {
        stack.push(piece.to_owned());
        assert(strings_view(stack@) =~= strings_view(old(stack)@).push(piece@));
    }
}


/// The first `n` parts of `v`, copied.
fn copy_parts(v: &Vec<String>, n: usize) -> (r: Vec<String>)
    requires
        n <= v@.len(),
    ensures
        strings_view(r@) == strings_view(v@).take(n as int),
{
    let mut r: Vec<String> = Vec::new();
    let mut i: usize = 0;
    while i < n
        invariant
            i <= n <= v@.len(),
            strings_view(r@) == strings_view(v@).take(i as int),
        decreases n - i,
    {
        let part = v[i].clone();
        assert(part@ == v@[i as int]@);
        let ghost before = r@;
        r.push(part);
        assert(strings_view(r@) =~= strings_view(before).push(part@));
        assert(strings_view(r@) =~= strings_view(v@).take(i + 1));
        i = i + 1;
    }
    r
}

/// The parts of `v` from `from` on, each preceded by `/`.
fn join_from(v: &Vec<String>, from: usize) -> (r: String)
    requires
        from <= v@.len(),
    ensures
        r@ == slash_joined(strings_view(v@).skip(from as int)),
{
    let mut r = String::new();
    let mut i: usize = from;
    proof {
        reveal_strlit("/");
        assert(strings_view(v@).subrange(from as int, from as int) =~= Seq::<Seq<char>>::empty());
    }
    while i < v.len()
        invariant
            from <= i <= v@.len(),
            r@ == slash_joined(strings_view(v@).subrange(from as int, i as int)),
        decreases v@.len() - i,
    {
        r.append("/");
        r.append(v[i].as_str());
        proof {
            reveal_strlit("/");
            let sub = strings_view(v@).subrange(from as int, i + 1);
            assert(sub.drop_last() =~= strings_view(v@).subrange(from as int, i as int));
            assert(r@ =~= slash_joined(sub));
        }
        i = i + 1;
    }
    r
}

/// How a path is shown: `/` for the top, `/x/y` otherwise.
pub open spec fn display(parts: Seq<Seq<char>>) -> Seq<char> {
    if parts.len() == 0 {
        seq!['/']
    } else {
        slash_joined(parts)
    }
}

/// `path` as shown relative to `base`: `""` for `base` itself, `/x/y` below it.
pub open spec fn relative_display(path: Seq<Seq<char>>, base: Seq<Seq<char>>) -> Seq<char> {
    slash_joined(path.skip(base.len() as int))
}

/// Why a request path or a name was refused.
#[derive(Debug, Clone, PartialEq, Eq)]
pub enum PathError {
    /// The path leads outside the directory it is meant to stay in.
    OutsideRoot(String),
    /// The name is not a single plain component.
    InvalidName(String),
}

/// The text shown to a client for a refused path or name.
pub open spec fn error_message(e: PathError) -> Seq<char> {
    match e {
        PathError::OutsideRoot(p) => "Invalid path: "@ + p@,
        PathError::InvalidName(n) => "Invalid name: "@ + n@,
    }
}

impl PathError {
    /// The text shown to a client, naming the refused path or name.
    pub fn message(&self) -> (r: String)
        ensures
            r@ == error_message(*self),
    {
        match self {
            PathError::OutsideRoot(p) => String::from_str("Invalid path: ").concat(p.as_str()),
            PathError::InvalidName(n) => String::from_str("Invalid name: ").concat(n.as_str()),
        }
    }
}

/// An absolute path made of normal components (no `.`, `..` or empty parts).
#[derive(Debug)]
pub struct DrivePath {
    parts: Vec<String>,
}

impl View for DrivePath {
    type V = Seq<Seq<char>>;

    closed spec fn view(&self) -> Seq<Seq<char>> {
        strings_view(self.parts@)
    }
}

impl Clone for DrivePath {
    fn clone(&self) -> (r: Self)
        ensures
            r@ == self@,
    {
        proof {
            use_type_invariant(self);
        }
        let parts = copy_parts(&self.parts, self.parts.len());
        assert(strings_view(parts@) =~= self@);
        DrivePath { parts }
    }
}

impl DrivePath {
    #[verifier::type_invariant]
    closed spec fn inv(&self) -> bool {
        all_normal(strings_view(self.parts@))
    }

    /// The top of the file system, `/`.
    pub fn top() -> (r: DrivePath)
        ensures
            r@ == Seq::<Seq<char>>::empty(),
    {
        let r = DrivePath { parts: Vec::new() };
        assert(strings_view(r.parts@) =~= Seq::<Seq<char>>::empty());
        r
    }

    /// Reads an absolute path, normalising `.`, `..` and repeated separators.
    pub fn from_absolute(s: &str) -> (r: Option<DrivePath>)
        ensures
            r is Some <==> is_absolute(s@),
            r matches Some(p) ==> p@ == follow(Seq::empty(), s@) && all_normal(p@),
    {
        if s.unicode_len() > 0 && s.get_char(0) == '/' {
            let mut parts: Vec<String> = Vec::new();
            assert(strings_view(parts@) =~= Seq::<Seq<char>>::empty());
            follow_into(&mut parts, s);
            proof {
                lemma_follow_normal(Seq::empty(), s@);
            }
            Some(DrivePath { parts })
        } else {
            None
        }
    }

    /// The path as text: `/` for the top, `/x/y` otherwise.
    pub fn to_path_string(&self) -> (r: String)
        ensures
            r@ == display(self@),
    {
        if self.parts.len() == 0 {
            let r = String::from_str("/");
            proof {
                reveal_strlit("/");
            }
            assert(r@ =~= seq!['/']);
            r
        } else {
            assert(strings_view(self.parts@).skip(0) =~= self@);
            join_from(&self.parts, 0)
        }
    }

    /// Whether `base` is this path or one of its ancestors.
    pub fn starts_with(&self, base: &DrivePath) -> (r: bool)
        ensures
            r == base@.is_prefix_of(self@),
    {
        if base.parts.len() > self.parts.len() {
            return false;
        }
        let n = base.parts.len();
        let mut i: usize = 0;
        while i < n
            invariant
                n == base.parts@.len(),
                n <= self.parts@.len(),
                i <= n,
                forall|k: int| 0 <= k < i ==> base@[k] == self@[k],
            decreases n - i,
        {
            if base.parts[i] != self.parts[i] {
                assert(base@[i as int] != self@.subrange(0, n as int)[i as int]);
                return false;
            }
            i = i + 1;
        }
        assert(base@ =~= self@.subrange(0, n as int));
        true
    }

    /// The path one level up; none for the top.
    pub fn parent(&self) -> (r: Option<DrivePath>)
        ensures
            r is Some <==> self@.len() > 0,
            r matches Some(p) ==> p@ == self@.drop_last(),
    {
        proof {
            use_type_invariant(self);
        }
        if self.parts.len() == 0 {
            None
        } else {
            let parts = copy_parts(&self.parts, self.parts.len() - 1);
            Some(DrivePath { parts })
        }
    }

    /// The entry called `name` directly inside this path, if `name` is one
    /// plain component.
    pub fn child(&self, name: &str) -> (r: Result<DrivePath, PathError>)
        ensures
            r is Ok <==> is_normal_part(name@),
            r matches Ok(p) ==> p@ == self@.push(name@),
            r matches Err(e) ==> e matches PathError::InvalidName(t) && t@ == name@,
    {
        proof {
            use_type_invariant(self);
        }
        let n = name.unicode_len();
        let mut i: usize = 0;
        while i < n
            invariant
                n == name@.len(),
                i <= n,
                forall|k: int| 0 <= k < i ==> name@[k] != '/',
            decreases n - i,
        {
            if name.get_char(i) == '/' {
                return Err(PathError::InvalidName(name.to_owned()));
            }
            i = i + 1;
        }
        if n == 0 || is_dot(name) || is_dot_dot(name) {
            return Err(PathError::InvalidName(name.to_owned()));
        }
        let mut parts = copy_parts(&self.parts, self.parts.len());
        assert(strings_view(parts@) =~= self@);
        parts.push(name.to_owned());
        assert(strings_view(parts@) =~= self@.push(name@));
        Ok(DrivePath { parts })
    }
}


impl DrivePath {
    /// The last component; none for the top.
    pub fn file_name(&self) -> (r: Option<String>)
        ensures
            r is Some <==> self@.len() > 0,
            r matches Some(n) ==> n@ == self@.last(),
    {
        if self.parts.len() == 0 {
            None
        } else {
            Some(self.parts[self.parts.len() - 1].clone())
        }
    }
}

/// Resolves a requested path against `root`.
///
/// The text is joined onto `root` as a path join does (an absolute text
/// replaces it) and normalised lexically; the result is accepted only if it
/// is `root` itself or lies below it.
pub fn resolve(root: &DrivePath, requested: &str) -> (r: Result<DrivePath, PathError>)
    ensures
        r is Ok <==> root@.is_prefix_of(joined(root@, requested@)),
        r matches Ok(p) ==> {
            &&& p@ == joined(root@, requested@)
            &&& root@.is_prefix_of(p@)
            &&& all_normal(p@)
        },
        r matches Err(e) ==> e matches PathError::OutsideRoot(t) && t@ == requested@,
{
    proof {
        use_type_invariant(root);
    }
    let mut parts: Vec<String> = if requested.unicode_len() > 0 && requested.get_char(0) == '/' {
        Vec::new()
    } else {
        copy_parts(&root.parts, root.parts.len())
    };
    assert(is_absolute(requested@) ==> strings_view(parts@) =~= Seq::<Seq<char>>::empty());
    assert(!is_absolute(requested@) ==> strings_view(parts@) =~= root@);
    let ghost start = strings_view(parts@);
    follow_into(&mut parts, requested);
    proof {
        lemma_follow_normal(start, requested@);
    }
    let candidate = DrivePath { parts };
    if candidate.starts_with(root) {
        Ok(candidate)
    } else {
        Err(PathError::OutsideRoot(requested.to_owned()))
    }
}

/// `path` shown relative to `base_dir`: `""` when they are equal, `/x/y`
/// when `path` lies below it; an error when it does not.
pub fn relative_path(path: &DrivePath, base_dir: &DrivePath) -> (r: Result<String, PathError>)
    ensures
        r is Ok <==> base_dir@.is_prefix_of(path@),
        r matches Ok(s) ==> s@ == relative_display(path@, base_dir@),
        r matches Err(e) ==> e matches PathError::OutsideRoot(t) && t@ == display(path@),
{
    if path.starts_with(base_dir) {
        Ok(join_from(&path.parts, base_dir.parts.len()))
    } else {
        Err(PathError::OutsideRoot(path.to_path_string()))
    }
}


/// The request text for a shown path: the route drops the leading `/`.
pub open spec fn request_text(shown: Seq<char>) -> Seq<char> {
    if shown.len() == 0 {
        shown
    } else {
        shown.drop_first()
    }
}

proof fn lemma_pieces_plain(p: Seq<char>)
    requires
        no_sep(p),
    ensures
        pieces(p) == seq![p],
    decreases p.len(),
{
    if p.len() == 0 {
        assert(p =~= Seq::<char>::empty());
    } else {
        lemma_pieces_plain(p.drop_last());
        assert(p.drop_last().push(p.last()) =~= p);
        assert(pieces(p) =~= seq![p]);
    }
}

proof fn lemma_pieces_after_sep(s: Seq<char>, p: Seq<char>)
    requires
        no_sep(p),
    ensures
        pieces(s + seq!['/'] + p) == pieces(s).push(p),
    decreases p.len(),
{
    let t = s + seq!['/'] + p;
    if p.len() == 0 {
        assert(t.drop_last() =~= s);
        assert(p =~= Seq::<char>::empty());
    } else {
        let q = p.drop_last();
        lemma_pieces_after_sep(s, q);
        assert(t.drop_last() =~= s + seq!['/'] + q);
        assert(q.push(p.last()) =~= p);
        assert(pieces(s).push(q).update(pieces(s).len() as int, q.push(t.last())) =~= pieces(s).push(p));
    }
}

proof fn lemma_walk_normal_parts(start: Seq<Seq<char>>, xs: Seq<Seq<char>>)
    requires
        all_normal(xs),
    ensures
        walk(start, xs) == start + xs,
    decreases xs.len(),
{
    if xs.len() == 0 {
        assert(start + xs =~= start);
    } else {
        lemma_walk_normal_parts(start, xs.drop_last());
        assert(is_normal_part(xs[xs.len() - 1]));
        assert((start + xs.drop_last()).push(xs.last()) =~= start + xs);
    }
}

proof fn lemma_slash_joined_tail(xs: Seq<Seq<char>>)
    requires
        xs.len() >= 1,
        all_normal(xs),
    ensures
        slash_joined(xs).len() > 1,
        slash_joined(xs)[0] == '/',
        slash_joined(xs)[1] == xs[0][0],
        pieces(slash_joined(xs).drop_first()) == xs,
    decreases xs.len(),
{
    let ys = xs.drop_last();
    let p = xs.last();
    assert(is_normal_part(xs[xs.len() - 1]));
    if xs.len() == 1 {
        assert(ys =~= Seq::<Seq<char>>::empty());
        assert(slash_joined(ys) == Seq::<char>::empty());
        assert(slash_joined(xs) =~= seq!['/'] + p);
        assert(slash_joined(xs).drop_first() =~= p);
        lemma_pieces_plain(p);
        assert(seq![p] =~= xs);
    } else {
        assert(all_normal(ys)) by {
            assert forall|i: int| 0 <= i < ys.len() implies is_normal_part(#[trigger] ys[i]) by {
                assert(ys[i] == xs[i]);
            }
        }
        lemma_slash_joined_tail(ys);
        let head = slash_joined(ys);
        assert(slash_joined(xs) == head + seq!['/'] + p);
        assert(slash_joined(xs).drop_first() =~= head.drop_first() + seq!['/'] + p);
        lemma_pieces_after_sep(head.drop_first(), p);
        assert(ys.push(p) =~= xs);
        assert(ys[0] == xs[0]);
    }
}

/// The path a listing shows for `dir` leads back to `dir`: sent as a request
/// path (without its leading `/`), it joins onto `root` as `dir` itself, which
/// the guard accepts.
pub proof fn lemma_shown_path_resolves_back(root: Seq<Seq<char>>, dir: Seq<Seq<char>>)
    requires
        root.is_prefix_of(dir),
        all_normal(dir),
    ensures
        joined(root, request_text(relative_display(dir, root))) == dir,
        root.is_prefix_of(joined(root, request_text(relative_display(dir, root)))),
{
    let xs = dir.skip(root.len() as int);
    assert(all_normal(xs)) by {
        assert forall|i: int| 0 <= i < xs.len() implies is_normal_part(#[trigger] xs[i]) by {
            assert(xs[i] == dir[i + root.len()]);
        }
    }
    assert(root + xs =~= dir);
    if xs.len() == 0 {
        let t = request_text(relative_display(dir, root));
        assert(t =~= Seq::<char>::empty());
        assert(pieces(t) =~= seq![Seq::<char>::empty()]);
        assert(seq![Seq::<char>::empty()].drop_last() =~= Seq::<Seq<char>>::empty());
        assert(walk(root, Seq::<Seq<char>>::empty()) == root);
        assert(walk(root, pieces(t)) == step(root, Seq::<char>::empty()));
        assert(root =~= dir);
        assert(root.is_prefix_of(root)) by {
            assert(root =~= root.subrange(0, root.len() as int));
        }
    } else {
        lemma_slash_joined_tail(xs);
        let t = request_text(relative_display(dir, root));
        assert(t == slash_joined(xs).drop_first());
        assert(t[0] == xs[0][0]);
        assert(is_normal_part(xs[0]));
        assert(!is_absolute(t));
        lemma_walk_normal_parts(root, xs);
        assert(joined(root, t) == walk(root, xs));
        assert(root =~= dir.subrange(0, root.len() as int));
    }
}

} // verus!
