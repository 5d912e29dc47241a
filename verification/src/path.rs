//! Paths written with `/`, taken lexically: nothing here looks at a disk.

use crate::text::{chars_of, occurs_in};
use vstd::prelude::*;

verus! {

/// What one step of a path stands for.
pub enum Component {
    /// The `/` that an absolute path begins with.
    RootDir,
    /// A `.` that the path begins with.
    CurDir,
    /// A `..`.
    ParentDir,
    /// A name.
    Normal(Seq<char>),
}

/// A stretch of a path between two separators, from `start` up to `end`.
pub struct Piece {
    pub start: int,
    pub end: int,
}

/// A component together with where the path spells it.
pub struct Part {
    pub component: Component,
    pub start: int,
    pub end: int,
}

/// The stretches between the separators of `path`, empty ones included.
pub open spec fn pieces(path: Seq<char>) -> Seq<Piece>
    decreases path.len(),
{
    let n = path.len() as int;
    if n == 0 {
        seq![Piece { start: 0, end: 0 }]
    } else if path.last() == '/' {
        pieces(path.drop_last()).push(Piece { start: n, end: n })
    } else {
        let front = pieces(path.drop_last());
        front.drop_last().push(Piece { start: front.last().start, end: n })
    }
}

/// What a stretch of text stands for. Empty stretches stand for nothing, and so
/// does a `.` that is not the first stretch.
pub open spec fn component_of(text: Seq<char>, first: bool) -> Option<Component> {
    if text.len() == 0 {
        None
    } else if text == seq!['.'] {
        if first {
            Some(Component::CurDir)
        } else {
            None
        }
    } else if text == seq!['.', '.'] {
        Some(Component::ParentDir)
    } else {
        Some(Component::Normal(text))
    }
}

/// The parts that the given stretches of `path` stand for.
pub open spec fn body_parts(path: Seq<char>, stretches: Seq<Piece>) -> Seq<Part>
    decreases stretches.len(),
{
    if stretches.len() == 0 {
        seq![]
    } else {
        let p = stretches.last();
        let front = body_parts(path, stretches.drop_last());
        match component_of(path.subrange(p.start, p.end), p.start == 0) {
            Some(component) => front.push(Part { component, start: p.start, end: p.end }),
            None => front,
        }
    }
}

/// The part that a leading separator stands for.
pub open spec fn root_parts(path: Seq<char>) -> Seq<Part> {
    if is_absolute(path) {
        seq![Part { component: Component::RootDir, start: 0, end: 1 }]
    } else {
        seq![]
    }
}

/// The parts of `path`, in order.
pub open spec fn parts(path: Seq<char>) -> Seq<Part> {
    root_parts(path) + body_parts(path, pieces(path))
}

/// The components of `path`, in order: repeated and trailing separators and
/// every `.` but a leading one leave no trace.
pub open spec fn components(path: Seq<char>) -> Seq<Component> {
    parts(path).map_values(|p: Part| p.component)
}

/// Whether `path` begins at the root.
pub open spec fn is_absolute(path: Seq<char>) -> bool {
    path.len() > 0 && path[0] == '/'
}

/// Whether a component of `path` is `..`.
pub open spec fn has_parent_dir(path: Seq<char>) -> bool {
    components(path).contains(Component::ParentDir)
}

/// The name that `path` ends in, if its last component is one.
pub open spec fn last_name(path: Seq<char>) -> Option<Seq<char>> {
    let cs = components(path);
    if cs.len() == 0 {
        None
    } else {
        match cs.last() {
            Component::Normal(name) => Some(name),
            _ => None,
        }
    }
}

/// `relative` taken from the directory `dir`.
pub open spec fn join_path(dir: Seq<char>, relative: Seq<char>) -> Seq<char> {
    if is_absolute(relative) {
        relative
    } else if dir.len() == 0 || dir.last() == '/' {
        dir + relative
    } else {
        dir.push('/') + relative
    }
}

/// Whether the components of `path` begin with those of `base`.
pub open spec fn starts_with(path: Seq<char>, base: Seq<char>) -> bool {
    components(base).is_prefix_of(components(path))
}

/// What is left of `path` behind the components of `base`.
pub open spec fn without_prefix(path: Seq<char>, base: Seq<char>) -> Option<Seq<char>> {
    let ps = parts(path);
    let k = components(base).len() as int;
    if !starts_with(path, base) {
        None
    } else if k == ps.len() {
        Some(seq![])
    } else {
        Some(path.subrange(ps[k].start, ps.last().end))
    }
}

/// The kinds of component.
#[derive(Clone, Copy, PartialEq, Eq, Structural)]
enum Kind {
    RootDir,
    CurDir,
    ParentDir,
    Normal,
}

/// A part as the scanner finds it.
struct Span {
    kind: Kind,
    start: usize,
    end: usize,
}

impl Span {
    spec fn component(self, path: Seq<char>) -> Component {
        match self.kind {
            Kind::RootDir => Component::RootDir,
            Kind::CurDir => Component::CurDir,
            Kind::ParentDir => Component::ParentDir,
            Kind::Normal => Component::Normal(path.subrange(self.start as int, self.end as int)),
        }
    }

    spec fn part(self, path: Seq<char>) -> Part {
        Part {
            component: self.component(path),
            start: self.start as int,
            end: self.end as int,
        }
    }
}

spec fn parts_seen(path: Seq<char>, spans: Seq<Span>) -> Seq<Part> {
    spans.map_values(|s: Span| s.part(path))
}

/// Every stretch lies inside the path, the last one reaches its end, and only
/// the first one starts at its beginning.
proof fn lemma_pieces_bounds(path: Seq<char>)
    ensures
        pieces(path).len() > 0,
        pieces(path).last().end == path.len(),
        forall|i: int|
            0 <= i < pieces(path).len() ==> 0 <= (#[trigger] pieces(path)[i]).start
                <= pieces(path)[i].end <= path.len(),
        forall|i: int|
            0 <= i < pieces(path).len() ==> ((#[trigger] pieces(path)[i]).start == 0 <==> i == 0),
    decreases path.len(),
{
    if path.len() > 0 {
        lemma_pieces_bounds(path.drop_last());
    }
}

/// The stretch that ends at `end` adds at most one part.
fn classify(chars: &Vec<char>, start: usize, end: usize) -> (kind: Option<Kind>)
    requires
        start <= end <= chars@.len(),
    ensures
        match kind {
            Some(k) => component_of(chars@.subrange(start as int, end as int), start == 0) == Some(
                (Span { kind: k, start, end }).component(chars@),
            ),
            None => component_of(chars@.subrange(start as int, end as int), start == 0) is None,
        },
{
    let ghost text = chars@.subrange(start as int, end as int);
    if start == end {
        None
    } else if end - start == 1 && chars[start] == '.' {
        assert(text =~= seq!['.']);
        if start == 0 {
            Some(Kind::CurDir)
        } else {
            None
        }
    } else if end - start == 2 && chars[start] == '.' && chars[start + 1] == '.' {
        assert(text =~= seq!['.', '.']);
        Some(Kind::ParentDir)
    } else {
        assert(text[0] == chars[start as int]);
        assert(end - start == 2 ==> text[1] == chars[start + 1]);
        assert(seq!['.'].len() == 1);
        assert(seq!['.', '.'].len() == 2);
        assert(seq!['.', '.'][0] == '.' && seq!['.', '.'][1] == '.');
        assert(seq!['.'][0] == '.');
        Some(Kind::Normal)
    }
}

/// The parts of a path.
fn scan(chars: &Vec<char>) -> (spans: Vec<Span>)
    ensures
        parts_seen(chars@, spans@) == parts(chars@),
        forall|i: int|
            0 <= i < spans@.len() ==> (#[trigger] spans@[i]).start <= spans@[i].end
                <= chars@.len(),
{
    let ghost path = chars@;
    let mut spans: Vec<Span> = Vec::new();
    if chars.len() > 0 && chars[0] == '/' {
        spans.push(Span { kind: Kind::RootDir, start: 0, end: 1 });
    }
    let mut start: usize = 0;
    let mut i: usize = 0;
    assert(path.take(0) =~= Seq::<char>::empty());
    assert(pieces(path.take(0)).drop_last() =~= Seq::<Piece>::empty());
    assert(parts_seen(path, spans@) =~= root_parts(path) + body_parts(
        path,
        pieces(path.take(0)).drop_last(),
    ));
    while i < chars.len()
        invariant
            path == chars@,
            start <= i <= path.len(),
            pieces(path.take(i as int)).len() > 0,
            pieces(path.take(i as int)).last() == (Piece { start: start as int, end: i as int }),
            parts_seen(path, spans@) == root_parts(path) + body_parts(
                path,
                pieces(path.take(i as int)).drop_last(),
            ),
            forall|j: int|
                0 <= j < spans@.len() ==> (#[trigger] spans@[j]).start <= spans@[j].end
                    <= path.len(),
        decreases path.len() - i,
    {
        let ghost before = pieces(path.take(i as int));
        assert(path.take(i + 1).drop_last() =~= path.take(i as int));
        assert(path.take(i + 1).last() == path[i as int]);
        if chars[i] == '/' {
            let kind = classify(chars, start, i);
            let ghost seen = spans@;
            assert(pieces(path.take(i + 1)).drop_last() =~= before);
            match kind {
                Some(k) => {
                    spans.push(Span { kind: k, start, end: i });
                    assert(parts_seen(path, spans@) =~= parts_seen(path, seen).push(
                        spans@.last().part(path),
                    ));
                },
                None => {},
            }
            assert(parts_seen(path, spans@) =~= root_parts(path) + body_parts(path, before));
            start = i + 1;
        } else {
            assert(pieces(path.take(i + 1)).drop_last() =~= before.drop_last());
        }
        i = i + 1;
    }
    assert(path.take(path.len() as int) =~= path);
    let kind = classify(chars, start, i);
    let ghost seen = spans@;
    match kind {
        Some(k) => {
            spans.push(Span { kind: k, start, end: i });
            assert(parts_seen(path, spans@) =~= parts_seen(path, seen).push(
                spans@.last().part(path),
            ));
        },
        None => {},
    }
    assert(parts_seen(path, spans@) =~= parts(path));
    spans
}

/// Whether `path` begins at the root.
pub fn is_rooted(path: &str) -> (result: bool)
    ensures
        result == is_absolute(path@),
{
    let chars = chars_of(path);
    chars.len() > 0 && chars[0] == '/'
}

/// Whether a component of `path` is `..`.
pub fn climbs(path: &str) -> (result: bool)
    ensures
        result == has_parent_dir(path@),
{
    let chars = chars_of(path);
    let spans = scan(&chars);
    let ghost cs = components(path@);
    assert(cs.len() == spans@.len());
    for i in 0..spans.len()
        invariant
            chars@ == path@,
            cs == components(path@),
            parts_seen(chars@, spans@) == parts(chars@),
            forall|j: int| 0 <= j < i ==> cs[j] != Component::ParentDir,
    {
        assert(parts(path@)[i as int] == spans@[i as int].part(path@));
        assert(cs[i as int] == spans@[i as int].component(path@));
        if spans[i].kind == Kind::ParentDir {
            assert(cs.contains(Component::ParentDir));
            return true;
        }
    }
    false
}

/// The name that `path` ends in, if its last component is one.
pub fn file_name(path: &str) -> (name: Option<String>)
    ensures
        match name {
            Some(n) => last_name(path@) == Some(n@),
            None => last_name(path@) is None,
        },
{
    let chars = chars_of(path);
    let spans = scan(&chars);
    assert(components(path@).len() == spans@.len());
    if spans.len() == 0 {
        return None;
    }
    let last = &spans[spans.len() - 1];
    assert(parts(path@)[spans@.len() - 1] == last.part(path@));
    assert(components(path@).last() == last.component(path@));
    match last.kind {
        Kind::Normal => Some(path.substring_char(last.start, last.end).to_owned()),
        _ => None,
    }
}

/// `relative` taken from the directory `dir`.
pub fn join(dir: &str, relative: &str) -> (path: String)
    ensures
        path@ == join_path(dir@, relative@),
{
    if is_rooted(relative) {
        return relative.to_owned();
    }
    let chars = chars_of(dir);
    if chars.len() == 0 || chars[chars.len() - 1] == '/' {
        dir.to_owned().concat(relative)
    } else {
        proof {
            reveal_strlit("/");
            assert(dir@ + "/"@ =~= dir@.push('/'));
        }
        dir.to_owned().concat("/").concat(relative)
    }
}

/// Whether two parts are the same component.
fn same_component(a: &Vec<char>, x: &Span, b: &Vec<char>, y: &Span) -> (result: bool)
    requires
        x.start <= x.end <= a@.len(),
        y.start <= y.end <= b@.len(),
    ensures
        result == (x.component(a@) == y.component(b@)),
{
    if x.kind != y.kind {
        return false;
    }
    if x.kind != Kind::Normal {
        return true;
    }
    let ghost s = a@.subrange(x.start as int, x.end as int);
    let ghost t = b@.subrange(y.start as int, y.end as int);
    assert(x.component(a@) == Component::Normal(s));
    assert(y.component(b@) == Component::Normal(t));
    if x.end - x.start != y.end - y.start {
        assert(s.len() != t.len());
        return false;
    }
    let n = x.end - x.start;
    for i in 0..n
        invariant
            x.start <= x.end <= a@.len(),
            y.start <= y.end <= b@.len(),
            n == x.end - x.start == y.end - y.start,
            s == a@.subrange(x.start as int, x.end as int),
            t == b@.subrange(y.start as int, y.end as int),
            x.component(a@) == Component::Normal(s),
            y.component(b@) == Component::Normal(t),
            forall|j: int| 0 <= j < i ==> s[j] == t[j],
    {
        if a[x.start + i] != b[y.start + i] {
            assert(s[i as int] != t[i as int]);
            return false;
        }
    }
    assert(s =~= t);
    true
}

/// What is left of `path` behind the components of `base`, where `path` begins
/// with them.
pub fn strip_prefix(path: &str, base: &str) -> (rest: Option<String>)
    ensures
        match rest {
            Some(r) => without_prefix(path@, base@) == Some(r@),
            None => without_prefix(path@, base@) is None,
        },
{
    let a = chars_of(path);
    let b = chars_of(base);
    let x = scan(&a);
    let y = scan(&b);
    let ghost cx = components(path@);
    let ghost cy = components(base@);
    assert(cx.len() == x@.len());
    assert(cy.len() == y@.len());
    assert forall|i: int| 0 <= i < x@.len() implies parts(path@)[i] == #[trigger] x@[i].part(
        path@,
    ) && cx[i] == x@[i].component(path@) by {
        assert(parts_seen(a@, x@)[i] == x@[i].part(a@));
    }
    assert forall|i: int| 0 <= i < y@.len() implies parts(base@)[i] == #[trigger] y@[i].part(
        base@,
    ) && cy[i] == y@[i].component(base@) by {
        assert(parts_seen(b@, y@)[i] == y@[i].part(b@));
    }
    if y.len() > x.len() {
        return None;
    }
    for i in 0..y.len()
        invariant
            a@ == path@,
            b@ == base@,
            y@.len() <= x@.len(),
            cx.len() == x@.len(),
            cy.len() == y@.len(),
            cx == components(path@),
            cy == components(base@),
            forall|j: int|
                0 <= j < x@.len() ==> (#[trigger] x@[j]).start <= x@[j].end <= a@.len(),
            forall|j: int|
                0 <= j < y@.len() ==> (#[trigger] y@[j]).start <= y@[j].end <= b@.len(),
            forall|j: int|
                0 <= j < x@.len() ==> parts(path@)[j] == (#[trigger] x@[j]).part(path@) && cx[j]
                    == x@[j].component(path@),
            forall|j: int|
                0 <= j < y@.len() ==> parts(base@)[j] == (#[trigger] y@[j]).part(base@) && cy[j]
                    == y@[j].component(base@),
            forall|j: int| 0 <= j < i ==> cx[j] == cy[j],
    {
        if !same_component(&a, &x[i], &b, &y[i]) {
            assert(cx[i as int] != cy[i as int]);
            assert(!cy.is_prefix_of(cx)) by {
                if cy.is_prefix_of(cx) {
                    assert(cx.subrange(0, cy.len() as int)[i as int] == cx[i as int]);
                }
            }
            return None;
        }
    }
    assert(cy =~= cx.subrange(0, cy.len() as int));
    if y.len() == x.len() {
        Some(String::new())
    } else {
        proof {
            lemma_parts_ordered(path@);
        }
        let from = x[y.len()].start;
        let to = x[x.len() - 1].end;
        assert(parts(path@)[y@.len() as int] == x@[y@.len() as int].part(path@));
        assert(parts(path@).last() == x@[x@.len() - 1].part(path@));
        Some(path.substring_char(from, to).to_owned())
    }
}

/// Parts come in the order in which the path spells them.
proof fn lemma_parts_ordered(path: Seq<char>)
    ensures
        forall|i: int, j: int|
            0 <= i <= j < parts(path).len() ==> (#[trigger] parts(path)[i]).start <= (
            #[trigger] parts(path)[j]).end,
{
    lemma_pieces_bounds(path);
    lemma_pieces_ordered(path);
    lemma_body_parts_ordered(path, pieces(path));
    assert forall|i: int, j: int| 0 <= i <= j < parts(path).len() implies (#[trigger] parts(
        path,
    )[i]).start <= (#[trigger] parts(path)[j]).end by {
        let k = root_parts(path).len() as int;
        let body = body_parts(path, pieces(path));
        if i >= k {
            assert(parts(path)[i] == body[i - k]);
            assert(parts(path)[j] == body[j - k]);
        } else if j >= k {
            assert(parts(path)[j] == body[j - k]);
        }
    }
}

/// Stretches come in order.
proof fn lemma_pieces_ordered(path: Seq<char>)
    ensures
        forall|i: int, j: int|
            0 <= i < j < pieces(path).len() ==> (#[trigger] pieces(path)[i]).end < (
            #[trigger] pieces(path)[j]).start,
    decreases path.len(),
{
    if path.len() > 0 {
        lemma_pieces_ordered(path.drop_last());
        lemma_pieces_bounds(path.drop_last());
    }
}

/// The parts of stretches that come in order come in order, and lie inside the
/// stretches.
proof fn lemma_body_parts_ordered(path: Seq<char>, stretches: Seq<Piece>)
    requires
        forall|i: int| 0 <= i < stretches.len() ==> 0 <= (#[trigger] stretches[i]).start <= stretches[i].end,
        forall|i: int, j: int|
            0 <= i < j < stretches.len() ==> (#[trigger] stretches[i]).end < (
            #[trigger] stretches[j]).start,
    ensures
        forall|i: int|
            0 <= i < body_parts(path, stretches).len() ==> 0 <= (#[trigger] body_parts(
                path,
                stretches,
            )[i]).start <= body_parts(path, stretches)[i].end <= stretches.last().end,
        forall|i: int, j: int|
            0 <= i < j < body_parts(path, stretches).len() ==> (#[trigger] body_parts(
                path,
                stretches,
            )[i]).end < (#[trigger] body_parts(path, stretches)[j]).start,
    decreases stretches.len(),
{
    if stretches.len() > 0 {
        lemma_body_parts_ordered(path, stretches.drop_last());
    }
}

/// The stretches moved `n` characters on.
spec fn moved(stretches: Seq<Piece>, n: int) -> Seq<Piece> {
    stretches.map_values(|p: Piece| Piece { start: p.start + n, end: p.end + n })
}

/// The parts moved `n` characters on.
spec fn moved_parts(ps: Seq<Part>, n: int) -> Seq<Part> {
    ps.map_values(
        |p: Part| Part { component: p.component, start: p.start + n, end: p.end + n },
    )
}

/// The parts of stretches that do not begin a path.
spec fn inner_parts(path: Seq<char>, stretches: Seq<Piece>) -> Seq<Part>
    decreases stretches.len(),
{
    if stretches.len() == 0 {
        seq![]
    } else {
        let p = stretches.last();
        let front = inner_parts(path, stretches.drop_last());
        match component_of(path.subrange(p.start, p.end), false) {
            Some(component) => front.push(Part { component, start: p.start, end: p.end }),
            None => front,
        }
    }
}

/// Text behind a separator brings its own stretches.
proof fn lemma_pieces_append(s: Seq<char>, b: Seq<char>)
    requires
        s.len() > 0,
        s.last() == '/',
    ensures
        pieces(s + b) == pieces(s).drop_last() + moved(pieces(b), s.len() as int),
    decreases b.len(),
{
    let n = s.len() as int;
    if b.len() == 0 {
        assert(s + b =~= s);
        assert(pieces(s).drop_last() + moved(pieces(b), n) =~= pieces(s));
    } else {
        lemma_pieces_append(s, b.drop_last());
        lemma_pieces_bounds(b.drop_last());
        assert((s + b).drop_last() =~= s + b.drop_last());
        assert((s + b).last() == b.last());
        let front = pieces(s).drop_last();
        let m = moved(pieces(b.drop_last()), n);
        if b.last() == '/' {
            assert(moved(pieces(b), n) =~= m.push(Piece { start: (s + b).len() as int, end: (s + b).len() as int }));
            assert(pieces(s + b) =~= front + moved(pieces(b), n));
        } else {
            let start = pieces(b.drop_last()).last().start;
            assert((front + m).drop_last() =~= front + m.drop_last());
            assert((front + m).last() == m.last());
            assert(moved(pieces(b), n) =~= m.drop_last().push(
                Piece { start: start + n, end: (s + b).len() as int },
            ));
            assert(pieces(s + b) =~= front + moved(pieces(b), n));
        }
    }
}

proof fn lemma_body_parts_concat(path: Seq<char>, a: Seq<Piece>, b: Seq<Piece>)
    ensures
        body_parts(path, a + b) == body_parts(path, a) + body_parts(path, b),
    decreases b.len(),
{
    if b.len() == 0 {
        assert(a + b =~= a);
        assert(body_parts(path, a) + body_parts(path, b) =~= body_parts(path, a));
    } else {
        lemma_body_parts_concat(path, a, b.drop_last());
        assert((a + b).drop_last() =~= a + b.drop_last());
        assert((a + b).last() == b.last());
        assert(body_parts(path, a + b) =~= body_parts(path, a) + body_parts(path, b));
    }
}

/// What follows a text does not change the parts of stretches inside it.
proof fn lemma_body_parts_left(s: Seq<char>, b: Seq<char>, stretches: Seq<Piece>)
    requires
        forall|i: int|
            0 <= i < stretches.len() ==> 0 <= (#[trigger] stretches[i]).start <= stretches[i].end
                <= s.len(),
    ensures
        body_parts(s + b, stretches) == body_parts(s, stretches),
    decreases stretches.len(),
{
    if stretches.len() > 0 {
        lemma_body_parts_left(s, b, stretches.drop_last());
        let p = stretches.last();
        assert((s + b).subrange(p.start, p.end) =~= s.subrange(p.start, p.end));
    }
}

/// The parts of moved stretches are the moved inner parts.
proof fn lemma_body_parts_right(s: Seq<char>, b: Seq<char>, stretches: Seq<Piece>)
    requires
        s.len() > 0,
        forall|i: int|
            0 <= i < stretches.len() ==> 0 <= (#[trigger] stretches[i]).start <= stretches[i].end
                <= b.len(),
    ensures
        body_parts(s + b, moved(stretches, s.len() as int)) == moved_parts(
            inner_parts(b, stretches),
            s.len() as int,
        ),
    decreases stretches.len(),
{
    let n = s.len() as int;
    if stretches.len() == 0 {
        assert(moved_parts(inner_parts(b, stretches), n) =~= seq![]);
    } else {
        lemma_body_parts_right(s, b, stretches.drop_last());
        let p = stretches.last();
        assert(moved(stretches, n).drop_last() =~= moved(stretches.drop_last(), n));
        assert((s + b).subrange(p.start + n, p.end + n) =~= b.subrange(p.start, p.end));
        assert(body_parts(s + b, moved(stretches, n)) =~= moved_parts(
            inner_parts(b, stretches),
            n,
        ));
    }
}

/// The inner parts are all parts but a leading `.`.
proof fn lemma_inner_parts(path: Seq<char>, stretches: Seq<Piece>)
    requires
        stretches.len() > 0,
        forall|i: int|
            0 <= i < stretches.len() ==> ((#[trigger] stretches[i]).start == 0 <==> i == 0),
    ensures
        ({
            let body = body_parts(path, stretches);
            let inner = inner_parts(path, stretches);
            let dot = path.subrange(stretches[0].start, stretches[0].end) == seq!['.'];
            &&& dot ==> body.len() > 0 && body[0].component == Component::CurDir && inner
                == body.skip(1)
            &&& !dot ==> inner == body && (body.len() > 0 ==> body[0].component
                != Component::CurDir)
        }),
    decreases stretches.len(),
{
    if stretches.len() == 1 {
        reveal_with_fuel(body_parts, 2);
        reveal_with_fuel(inner_parts, 2);
        if body_parts(path, stretches).len() > 0 {
            assert(body_parts(path, stretches).skip(1) =~= seq![]);
        }
        assert(seq!['.'].len() == 1);
    } else {
        lemma_inner_parts(path, stretches.drop_last());
        assert(stretches.last().start != 0);
        assert(inner_parts(path, stretches) =~= body_parts(path, stretches)
            || inner_parts(path, stretches) =~= body_parts(path, stretches).skip(1));
    }
}

/// The components of a relative path as they count behind a directory: a
/// leading `.` leaves no trace.
pub open spec fn steps(relative: Seq<char>) -> Seq<Component> {
    let cs = components(relative);
    if cs.len() > 0 && cs[0] == Component::CurDir {
        cs.skip(1)
    } else {
        cs
    }
}

/// The directory with the separator that a join puts behind it.
spec fn with_separator(dir: Seq<char>) -> Seq<char> {
    if dir.last() == '/' {
        dir
    } else {
        dir.push('/')
    }
}

/// The parts of a join.
proof fn lemma_join_parts(dir: Seq<char>, relative: Seq<char>)
    requires
        dir.len() > 0,
        !is_absolute(relative),
    ensures
        parts(join_path(dir, relative)) == parts(dir) + moved_parts(
            inner_parts(relative, pieces(relative)),
            with_separator(dir).len() as int,
        ),
{
    let s = with_separator(dir);
    let n = s.len() as int;
    let path = s + relative;
    assert(join_path(dir, relative) == path);
    lemma_pieces_bounds(dir);
    lemma_pieces_bounds(s);
    lemma_pieces_bounds(relative);
    lemma_pieces_append(s, relative);
    let front = pieces(s).drop_last();
    lemma_body_parts_concat(path, front, moved(pieces(relative), n));
    lemma_body_parts_left(s, relative, front);
    lemma_body_parts_right(s, relative, pieces(relative));
    assert(body_parts(s, front) == body_parts(dir, pieces(dir))) by {
        if dir.last() != '/' {
            assert(s.drop_last() =~= dir);
            assert(front =~= pieces(dir));
            assert(s =~= dir + seq!['/']);
            lemma_body_parts_left(dir, seq!['/'], pieces(dir));
        }
    }
    assert(root_parts(path) == root_parts(dir)) by {
        assert(path[0] == dir[0]);
    }
    assert(parts(path) =~= parts(dir) + moved_parts(inner_parts(relative, pieces(relative)), n));
}

/// Joining puts the steps of the relative path behind the components of the
/// directory, so that the result lies under the directory.
pub proof fn join_appends(dir: Seq<char>, relative: Seq<char>)
    requires
        !is_absolute(relative),
    ensures
        dir.len() == 0 ==> components(dir).len() == 0 && components(join_path(dir, relative))
            == components(relative),
        dir.len() > 0 ==> components(join_path(dir, relative)) == components(dir) + steps(relative),
        starts_with(join_path(dir, relative), dir),
{
    let path = join_path(dir, relative);
    if dir.len() == 0 {
        assert(path =~= relative);
        assert(pieces(dir)[0] == (Piece { start: 0, end: 0 }));
        reveal_with_fuel(body_parts, 2);
        assert(components(dir) =~= seq![]);
        assert(components(dir) =~= components(path).subrange(0, 0));
    } else {
        let n = with_separator(dir).len() as int;
        lemma_join_parts(dir, relative);
        lemma_pieces_bounds(relative);
        lemma_inner_parts(relative, pieces(relative));
        let inner = inner_parts(relative, pieces(relative));
        let body = body_parts(relative, pieces(relative));
        assert(parts(relative) =~= body);
        assert(inner.map_values(|p: Part| p.component) =~= steps(relative)) by {
            assert(components(relative) =~= body.map_values(|p: Part| p.component));
            if body.len() > 0 {
                assert(components(relative)[0] == body[0].component);
            }
        }
        assert(moved_parts(inner, n).map_values(|p: Part| p.component) =~= inner.map_values(
            |p: Part| p.component,
        ));
        assert(components(path) =~= components(dir) + steps(relative));
        assert(components(dir) =~= components(path).subrange(0, components(dir).len() as int));
    }
}

/// The inner parts of a path are names and `..`s.
proof fn lemma_inner_kinds(path: Seq<char>, stretches: Seq<Piece>)
    ensures
        forall|i: int|
            0 <= i < inner_parts(path, stretches).len() ==> (#[trigger] inner_parts(
                path,
                stretches,
            )[i]).component is Normal || inner_parts(path, stretches)[i].component is ParentDir,
    decreases stretches.len(),
{
    if stretches.len() > 0 {
        lemma_inner_kinds(path, stretches.drop_last());
    }
}

/// The steps of a path that is neither absolute nor has a `..` are names.
pub proof fn steps_are_names(relative: Seq<char>)
    requires
        !is_absolute(relative),
        !has_parent_dir(relative),
    ensures
        forall|i: int| 0 <= i < steps(relative).len() ==> (#[trigger] steps(relative)[i]) is Normal,
{
    lemma_pieces_bounds(relative);
    lemma_inner_parts(relative, pieces(relative));
    lemma_inner_kinds(relative, pieces(relative));
    let inner = inner_parts(relative, pieces(relative));
    let body = body_parts(relative, pieces(relative));
    let cs = components(relative);
    assert(parts(relative) =~= body);
    assert forall|i: int| 0 <= i < steps(relative).len() implies (#[trigger] steps(
        relative,
    )[i]) is Normal by {
        if body.len() > 0 {
            assert(cs[0] == body[0].component);
        }
        assert(steps(relative)[i] == inner[i].component);
        let k = if cs[0] == Component::CurDir {
            i + 1
        } else {
            i
        };
        assert(cs.contains(cs[k]));
    }
}

/// No stretch holds a separator.
proof fn lemma_pieces_hold_no_separator(path: Seq<char>)
    ensures
        forall|i: int, j: int|
            0 <= i < pieces(path).len() && (#[trigger] pieces(path)[i]).start <= j
                < pieces(path)[i].end ==> #[trigger] path[j] != '/',
    decreases path.len(),
{
    if path.len() > 0 {
        let before = path.drop_last();
        lemma_pieces_hold_no_separator(before);
        lemma_pieces_bounds(before);
        lemma_pieces_bounds(path);
        assert forall|i: int, j: int|
            0 <= i < pieces(path).len() && (#[trigger] pieces(path)[i]).start <= j
                < pieces(path)[i].end implies #[trigger] path[j] != '/' by {
            if j < before.len() {
                assert(path[j] == before[j]);
                assert(i < pieces(before).len());
                assert(pieces(before)[i].start <= j < pieces(before)[i].end);
            }
        }
    }
}

/// A part is spelled by a text that is not empty and does not begin with a
/// separator, and a `..` is spelled by two dots.
proof fn lemma_body_parts_spelled(path: Seq<char>, stretches: Seq<Piece>)
    requires
        forall|i: int|
            0 <= i < stretches.len() ==> 0 <= (#[trigger] stretches[i]).start <= stretches[i].end
                <= path.len(),
        forall|i: int, j: int|
            0 <= i < stretches.len() && (#[trigger] stretches[i]).start <= j < stretches[i].end
                ==> #[trigger] path[j] != '/',
    ensures
        forall|i: int|
            0 <= i < body_parts(path, stretches).len() ==> {
                let p = #[trigger] body_parts(path, stretches)[i];
                &&& 0 <= p.start < p.end <= path.len()
                &&& path[p.start] != '/'
                &&& p.component == Component::ParentDir ==> path.subrange(p.start, p.end) == seq![
                    '.',
                    '.',
                ]
            },
    decreases stretches.len(),
{
    if stretches.len() > 0 {
        let front = stretches.drop_last();
        assert forall|i: int, j: int|
            0 <= i < front.len() && (#[trigger] front[i]).start <= j
                < front[i].end implies #[trigger] path[j] != '/' by {
            assert(front[i] == stretches[i]);
        }
        lemma_body_parts_spelled(path, front);
        let p = stretches[stretches.len() - 1];
        if p.start < p.end {
            assert(path[p.start] != '/');
        }
    }
}

/// A path with a `..` for a component has two dots in a row.
pub proof fn climbing_shows(path: Seq<char>)
    requires
        has_parent_dir(path),
    ensures
        occurs_in(".."@, path),
{
    lemma_pieces_bounds(path);
    lemma_pieces_hold_no_separator(path);
    lemma_body_parts_spelled(path, pieces(path));
    let k = components(path).index_of(Component::ParentDir);
    let root = root_parts(path).len() as int;
    assert(parts(path)[k].component == Component::ParentDir);
    assert(k >= root);
    let p = body_parts(path, pieces(path))[k - root];
    assert(parts(path)[k] == p);
    let spelled = path.subrange(p.start, p.end);
    assert(spelled.len() == 2);
    reveal_strlit("..");
    assert(spelled =~= ".."@);
    assert(path.subrange(p.start, p.start + ".."@.len()) == ".."@);
}

/// A path that is not empty has a component.
proof fn lemma_some_component(path: Seq<char>)
    requires
        path.len() > 0,
    ensures
        components(path).len() > 0,
{
    if !is_absolute(path) {
        lemma_pieces_bounds(path);
        lemma_first_piece(path);
        lemma_some_part(path, pieces(path));
    }
}

/// The first stretch of a relative path is not empty.
proof fn lemma_first_piece(path: Seq<char>)
    requires
        path.len() > 0,
        path[0] != '/',
    ensures
        pieces(path)[0].end > 0,
    decreases path.len(),
{
    lemma_pieces_bounds(path.drop_last());
    if path.len() > 1 {
        lemma_first_piece(path.drop_last());
    }
}

/// Stretches of which the first is not empty have a part.
proof fn lemma_some_part(path: Seq<char>, stretches: Seq<Piece>)
    requires
        stretches.len() > 0,
        stretches[0].start == 0,
        0 < stretches[0].end <= path.len(),
    ensures
        body_parts(path, stretches).len() > 0,
    decreases stretches.len(),
{
    if stretches.len() > 1 {
        lemma_some_part(path, stretches.drop_last());
    }
}

/// What is left behind a directory is a relative path. Only a directory written
/// as nothing at all leaves an absolute path as it is.
pub proof fn rest_is_relative(path: Seq<char>, base: Seq<char>)
    requires
        base.len() == 0 ==> !is_absolute(path),
    ensures
        without_prefix(path, base) matches Some(rest) ==> !is_absolute(rest),
{
    let ps = parts(path);
    let k = components(base).len() as int;
    if base.len() > 0 {
        lemma_some_component(base);
    }
    if starts_with(path, base) && k != ps.len() {
        lemma_pieces_bounds(path);
        lemma_pieces_hold_no_separator(path);
        lemma_body_parts_spelled(path, pieces(path));
        lemma_parts_ordered(path);
        let root = root_parts(path).len() as int;
        let body = body_parts(path, pieces(path));
        assert(components(path).len() == ps.len());
        assert(k < ps.len());
        assert(k >= root);
        assert(ps[k] == body[k - root]);
        assert(ps.last() == body[ps.len() - 1 - root]);
        let rest = path.subrange(ps[k].start, ps.last().end);
        if rest.len() > 0 {
            assert(rest[0] == path[ps[k].start]);
        }
    }
}

/// Whether `name` can name an entry of a directory.
pub open spec fn is_entry_name(name: Seq<char>) -> bool {
    &&& name.len() > 0
    &&& !name.contains('/')
    &&& name != seq!['.']
    &&& name != seq!['.', '.']
}

/// A text without separators is one stretch.
proof fn lemma_single_piece(name: Seq<char>)
    requires
        !name.contains('/'),
    ensures
        pieces(name) == seq![Piece { start: 0, end: name.len() as int }],
    decreases name.len(),
{
    if name.len() > 0 {
        assert(name.contains(name.last()));
        assert forall|i: int| 0 <= i < name.drop_last().len() implies name.drop_last()[i]
            != '/' by {
            assert(name.contains(name[i]));
        }
        lemma_single_piece(name.drop_last());
        assert(pieces(name) =~= seq![Piece { start: 0, end: name.len() as int }]);
    }
}

/// The name of an entry is a path of one component, the name.
pub proof fn entry_name_is_one_step(name: Seq<char>)
    requires
        is_entry_name(name),
    ensures
        components(name) == seq![Component::Normal(name)],
        !has_parent_dir(name),
{
    assert(!is_absolute(name)) by {
        assert(name.contains(name[0]));
    }
    lemma_single_piece(name);
    assert(name.subrange(0, name.len() as int) =~= name);
    reveal_with_fuel(body_parts, 2);
    assert(components(name) =~= seq![Component::Normal(name)]);
}

/// An entry of a directory is found again: its path ends in its name, and
/// taking the directory off the path leaves the name.
pub proof fn entry_name_recovered(dir: Seq<char>, name: Seq<char>)
    requires
        is_entry_name(name),
    ensures
        last_name(join_path(dir, name)) == Some(name),
        without_prefix(join_path(dir, name), dir) == Some(name),
{
    let path = join_path(dir, name);
    assert(!is_absolute(name)) by {
        assert(name.contains(name[0]));
    }
    lemma_single_piece(name);
    assert(name.subrange(0, name.len() as int) =~= name);
    reveal_with_fuel(body_parts, 2);
    reveal_with_fuel(inner_parts, 2);
    let own = Part { component: Component::Normal(name), start: 0, end: name.len() as int };
    assert(body_parts(name, pieces(name)) =~= seq![own]);
    assert(inner_parts(name, pieces(name)) =~= seq![own]);
    join_appends(dir, name);
    if dir.len() == 0 {
        assert(path =~= name);
        assert(parts(path) =~= seq![own]);
        assert(components(dir) =~= seq![]);
        assert(components(path).last() == Component::Normal(name));
    } else {
        let n = with_separator(dir).len() as int;
        lemma_join_parts(dir, name);
        let added = Part {
            component: Component::Normal(name),
            start: n,
            end: n + name.len(),
        };
        assert(moved_parts(seq![own], n) =~= seq![added]);
        assert(parts(path).last() == added);
        assert(components(path).last() == Component::Normal(name));
        assert(path.subrange(n, n + name.len()) =~= name);
    }
}

// ── laws ────────────────────────────────────────────────────────────────

/// A separator behind a path that is not empty leaves no trace; alone it is the
/// root.
proof fn lemma_trailing_separator(front: Seq<char>)
    ensures
        front.len() == 0 ==> components(front.push('/')) == seq![Component::RootDir],
        front.len() > 0 ==> components(front.push('/')) == components(front),
{
    let path = front.push('/');
    assert(path.drop_last() =~= front);
    lemma_pieces_bounds(front);
    let n = path.len() as int;
    let added = Piece { start: n, end: n };
    assert(pieces(path) == pieces(front).push(added));
    assert(pieces(path).drop_last() =~= pieces(front));
    assert(path.subrange(n, n).len() == 0);
    assert(body_parts(path, pieces(path)) == body_parts(path, pieces(front)));
    assert(path =~= front + seq!['/']);
    lemma_body_parts_left(front, seq!['/'], pieces(front));
    if front.len() == 0 {
        reveal_with_fuel(body_parts, 2);
        assert(pieces(front) =~= seq![Piece { start: 0, end: 0 }]);
        assert(body_parts(front, pieces(front)) =~= seq![]);
        assert(components(path) =~= seq![Component::RootDir]);
    } else {
        assert(path[0] == front[0]);
        assert(parts(path) =~= parts(front));
    }
}

/// A text without separators is at most one component: nothing where it is empty,
/// the place itself where it is `.`, the way up where it is `..`, else a name.
pub proof fn components_of_a_plain_text(s: Seq<char>)
    requires
        !s.contains('/'),
    ensures
        components(s) == (if s.len() == 0 {
            seq![]
        } else if s == seq!['.'] {
            seq![Component::CurDir]
        } else if s == seq!['.', '.'] {
            seq![Component::ParentDir]
        } else {
            seq![Component::Normal(s)]
        }),
{
    assert(!is_absolute(s)) by {
        if s.len() > 0 {
            assert(s.contains(s[0]));
        }
    }
    lemma_single_piece(s);
    assert(s.subrange(0, s.len() as int) =~= s);
    reveal_with_fuel(body_parts, 2);
    let whole = if s.len() == 0 {
        Seq::<Component>::empty()
    } else if s == seq!['.'] {
        seq![Component::CurDir]
    } else if s == seq!['.', '.'] {
        seq![Component::ParentDir]
    } else {
        seq![Component::Normal(s)]
    };
    assert(components(s) =~= whole);
}

/// What stands behind the last separator of a path adds one component at the
/// end: none where it is empty or `.`, the way up where it is `..`, else a name.
/// Together with the components of a plain text this says what the components of
/// every path are.
pub proof fn components_by_separators(front: Seq<char>, s: Seq<char>)
    requires
        !s.contains('/'),
    ensures
        components(front.push('/') + s) == (if front.len() == 0 {
            seq![Component::RootDir]
        } else {
            components(front)
        }) + (if s.len() == 0 || s == seq!['.'] {
            seq![]
        } else if s == seq!['.', '.'] {
            seq![Component::ParentDir]
        } else {
            seq![Component::Normal(s)]
        }),
{
    let dir = front.push('/');
    assert(!is_absolute(s)) by {
        if s.len() > 0 {
            assert(s.contains(s[0]));
        }
    }
    assert(dir.last() == '/');
    assert(join_path(dir, s) == dir + s);
    join_appends(dir, s);
    lemma_trailing_separator(front);
    components_of_a_plain_text(s);
    assert(seq![Component::CurDir].skip(1) =~= Seq::<Component>::empty());
    let tail = if s.len() == 0 || s == seq!['.'] {
        Seq::<Component>::empty()
    } else if s == seq!['.', '.'] {
        seq![Component::ParentDir]
    } else {
        seq![Component::Normal(s)]
    };
    assert(seq!['.'].len() == 1);
    assert(seq!['.', '.'].len() == 2);
    assert(steps(s) =~= tail);
}

/// The name that a path ends in is what stands behind its last separator, where
/// that is a name. Where it is nothing or a `.`, what stands before counts.
pub proof fn last_name_by_separators(front: Seq<char>, s: Seq<char>)
    requires
        !s.contains('/'),
    ensures
        last_name(front.push('/') + s) == (if s.len() == 0 || s == seq!['.'] {
            if front.len() == 0 {
                None
            } else {
                last_name(front)
            }
        } else if s == seq!['.', '.'] {
            None
        } else {
            Some(s)
        }),
        last_name(s) == (if s.len() == 0 || s == seq!['.'] || s == seq!['.', '.'] {
            None
        } else {
            Some(s)
        }),
{
    components_by_separators(front, s);
    components_of_a_plain_text(s);
    let before = if front.len() == 0 {
        seq![Component::RootDir]
    } else {
        components(front)
    };
    if s.len() == 0 || s == seq!['.'] {
        assert(before + Seq::<Component>::empty() =~= before);
    }
}

/// A path goes up exactly where what stands behind its last separator is `..`,
/// or what stands before does so.
pub proof fn climbing_by_separators(front: Seq<char>, s: Seq<char>)
    requires
        !s.contains('/'),
    ensures
        has_parent_dir(front.push('/') + s) <==> has_parent_dir(front) || s == seq!['.', '.'],
        has_parent_dir(s) <==> s == seq!['.', '.'],
{
    components_by_separators(front, s);
    components_of_a_plain_text(s);
    let up = Component::ParentDir;
    let before = if front.len() == 0 {
        seq![Component::RootDir]
    } else {
        components(front)
    };
    let all = components(front.push('/') + s);
    if front.len() == 0 {
        assert(!front.contains('/'));
        components_of_a_plain_text(front);
        assert(components(front).len() == 0);
    }
    if has_parent_dir(front) {
        let i = components(front).index_of(up);
        assert(all[i] == up);
    }
    if s == seq!['.', '.'] {
        assert(all[before.len() as int] == up);
        assert(components(s)[0] == up);
    }
    if has_parent_dir(front.push('/') + s) {
        let i = all.index_of(up);
        assert(all[i] == up);
        if i < before.len() {
            assert(before[i] == up);
            assert(components(front)[i] == up);
        }
    }
}

/// A path is absolute exactly where it begins with a separator.
pub proof fn absolute_paths_begin_with_a_separator(path: Seq<char>)
    ensures
        is_absolute(path) <==> path.len() > 0 && path.first() == '/',
{
}

/// A join spells the directory and the path with exactly one separator between
/// them that the directory did not end in already.
pub proof fn join_spells_both(dir: Seq<char>, relative: Seq<char>)
    requires
        relative.len() == 0 || relative[0] != '/',
    ensures
        ({
            let path = join_path(dir, relative);
            let added: nat = if dir.len() > 0 && dir.last() != '/' {
                1
            } else {
                0
            };
            &&& path.len() == dir.len() + added + relative.len()
            &&& path.take(dir.len() as int) == dir
            &&& path.skip((dir.len() + added) as int) == relative
            &&& added == 1 ==> path[dir.len() as int] == '/'
        }),
{
    let path = join_path(dir, relative);
    assert(path.take(dir.len() as int) =~= dir);
    if dir.len() > 0 && dir.last() != '/' {
        assert(path.skip(dir.len() as int + 1) =~= relative);
    } else {
        assert(path.skip(dir.len() as int) =~= relative);
    }
}

/// A path lies under a directory exactly where it begins with all of the
/// directory's components, and only then is something left behind them.
pub proof fn under_a_directory_by_components(path: Seq<char>, base: Seq<char>)
    ensures
        starts_with(path, base) <==> components(base).len() <= components(path).len() && forall|
            i: int,
        |
            0 <= i < components(base).len() ==> #[trigger] components(path)[i] == components(
                base,
            )[i],
        without_prefix(path, base) is Some <==> starts_with(path, base),
        components(path) == components(base) ==> without_prefix(path, base) == Some(
            Seq::<char>::empty(),
        ),
{
    let cp = components(path);
    let cb = components(base);
    if starts_with(path, base) {
        assert forall|i: int| 0 <= i < cb.len() implies #[trigger] cp[i] == cb[i] by {
            assert(cp.subrange(0, cb.len() as int)[i] == cb[i]);
        }
    }
    if cb.len() <= cp.len() && forall|i: int|
        0 <= i < cb.len() ==> #[trigger] cp[i] == cb[i] {
        assert(cb =~= cp.subrange(0, cb.len() as int));
    }
    assert(cp.len() == parts(path).len());
}

/// One name further down, what is left behind a directory is longer by a separator
/// and that name.
pub proof fn rest_grows_name_by_name(
    front: Seq<char>,
    name: Seq<char>,
    further: Seq<char>,
    base: Seq<char>,
)
    requires
        is_entry_name(name),
        is_entry_name(further),
        without_prefix(join_path(front, name), base) is Some,
        without_prefix(join_path(front, name), base)->0.len() > 0,
    ensures
        without_prefix(join_path(join_path(front, name), further), base) == Some(
            without_prefix(join_path(front, name), base)->0 + seq!['/'] + further,
        ),
{
    let path = join_path(front, name);
    let longer = join_path(path, further);
    let rest = without_prefix(path, base)->0;
    let k = components(base).len() as int;
    assert(!is_absolute(name) && !is_absolute(further)) by {
        assert(name.contains(name[0]));
        assert(further.contains(further[0]));
    }
    assert(path.last() == name.last());
    assert(path.last() != '/') by {
        assert(name.contains(name.last()));
    }
    lemma_entry_part(front, name);
    lemma_entry_part(path, further);
    let ps = parts(path);
    let more = parts(longer);
    assert(more == ps.push(more.last()));
    assert(components(path).len() == ps.len());
    assert(components(longer).len() == more.len());
    under_a_directory_by_components(path, base);
    under_a_directory_by_components(longer, base);
    assert forall|i: int| 0 <= i < k implies #[trigger] components(longer)[i] == components(
        base,
    )[i] by {
        assert(components(path)[i] == components(base)[i]);
        assert(more[i] == ps[i]);
    }
    assert(k < ps.len());
    lemma_parts_ordered(path);
    lemma_pieces_bounds(path);
    lemma_pieces_ordered(path);
    lemma_body_parts_ordered(path, pieces(path));
    let start = ps[k].start;
    assert(0 <= start) by {
        let root = root_parts(path).len() as int;
        if k >= root {
            assert(ps[k] == body_parts(path, pieces(path))[k - root]);
        }
    }
    assert(more[k] == ps[k]);
    assert(longer == path.push('/') + further);
    assert(start <= path.len());
    assert(rest =~= path.subrange(start, path.len() as int));
    assert(longer.subrange(start, longer.len() as int) =~= rest + seq!['/'] + further);
}

/// An entry of a directory adds one part, which reaches to the end of its path.
proof fn lemma_entry_part(dir: Seq<char>, name: Seq<char>)
    requires
        is_entry_name(name),
    ensures
        parts(join_path(dir, name)).len() > 0,
        parts(join_path(dir, name)).last().end == join_path(dir, name).len(),
        dir.len() > 0 ==> parts(join_path(dir, name)) == parts(dir).push(
            parts(join_path(dir, name)).last(),
        ),
{
    let path = join_path(dir, name);
    assert(!is_absolute(name)) by {
        assert(name.contains(name[0]));
    }
    lemma_single_piece(name);
    assert(name.subrange(0, name.len() as int) =~= name);
    reveal_with_fuel(body_parts, 2);
    reveal_with_fuel(inner_parts, 2);
    let own = Part { component: Component::Normal(name), start: 0, end: name.len() as int };
    assert(body_parts(name, pieces(name)) =~= seq![own]);
    assert(inner_parts(name, pieces(name)) =~= seq![own]);
    if dir.len() == 0 {
        assert(path =~= name);
        assert(parts(path) =~= seq![own]);
    } else {
        let n = with_separator(dir).len() as int;
        lemma_join_parts(dir, name);
        let added = Part {
            component: Component::Normal(name),
            start: n,
            end: n + name.len(),
        };
        assert(moved_parts(seq![own], n) =~= seq![added]);
        assert(parts(path) =~= parts(dir).push(added));
    }
}

/// An entry can have every name that is not empty, has no separator and is neither
/// `.` nor `..`.
pub proof fn entry_names_by_text(name: Seq<char>)
    ensures
        is_entry_name(name) <==> name.len() > 0 && !name.contains('/') && name != seq!['.'] && name
            != seq!['.', '.'],
{
}

} // verus!
