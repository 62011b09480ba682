//! Unix paths as sequences: their components, file name, parent and joining.
//!
//! A path is a sequence of units, bytes or characters, of which only the slash
//! and the dot have a meaning.
use vstd::prelude::*;

verus! {

/// A unit of a path: a byte or a character.
pub trait PathUnit: Copy {
    spec fn slash() -> Self;

    spec fn dot() -> Self;

    fn make_slash() -> (unit: Self)
        ensures
            unit == Self::slash(),
    ;

    fn is_slash(self) -> (b: bool)
        ensures
            b == (self == Self::slash()),
    ;

    fn is_dot(self) -> (b: bool)
        ensures
            b == (self == Self::dot()),
    ;
}

impl PathUnit for u8 {
    open spec fn slash() -> u8 {
        0x2f
    }

    open spec fn dot() -> u8 {
        0x2e
    }

    fn make_slash() -> u8 {
        0x2f
    }

    fn is_slash(self) -> bool {
        self == 0x2f
    }

    fn is_dot(self) -> bool {
        self == 0x2e
    }
}

impl PathUnit for char {
    open spec fn slash() -> char {
        '/'
    }

    open spec fn dot() -> char {
        '.'
    }

    fn make_slash() -> char {
        '/'
    }

    fn is_slash(self) -> bool {
        self == '/'
    }

    fn is_dot(self) -> bool {
        self == '.'
    }
}

/// Whether the path starts at the root of the file system.
pub open spec fn absolute<A: PathUnit>(p: Seq<A>) -> bool {
    p.len() > 0 && p[0] == A::slash()
}

/// Whether the path names the current directory explicitly at its start.
pub open spec fn starts_in_current<A: PathUnit>(p: Seq<A>) -> bool {
    p.len() > 0 && p[0] == A::dot() && (p.len() == 1 || p[1] == A::slash())
}

/// Where the components begin: behind the root or the leading `.`.
pub open spec fn body_start<A: PathUnit>(p: Seq<A>) -> int {
    if absolute(p) || starts_in_current(p) {
        1
    } else {
        0
    }
}

/// Whether `p[i..j]` is a component: a maximal run without slashes in the body
/// of the path that is neither empty nor a single dot.
pub open spec fn is_component<A: PathUnit>(p: Seq<A>, i: int, j: int) -> bool {
    &&& body_start(p) <= i < j <= p.len()
    &&& forall|k: int| i <= k < j ==> p[k] != A::slash()
    &&& i == body_start(p) || p[i - 1] == A::slash()
    &&& j == p.len() || p[j] == A::slash()
    &&& !(j == i + 1 && p[i] == A::dot())
}

/// Where the segment that ends at `end` starts: behind the closest slash before
/// `end`, or at `start`.
pub open spec fn segment_start<A: PathUnit>(p: Seq<A>, start: int, end: int) -> int
    decreases end - start,
{
    if end <= start || p[end - 1] == A::slash() {
        end
    } else {
        segment_start(p, start, end - 1)
    }
}

/// The last component of the path's first `end` units, as a range.
pub open spec fn last_component<A: PathUnit>(p: Seq<A>, end: int) -> Option<(int, int)>
    decreases end,
{
    let start = body_start(p);
    let s = segment_start(p, start, end);
    if end <= start {
        None
    } else if s < end && !(end == s + 1 && p[s] == A::dot()) {
        Some((s, end))
    } else if start < s <= end {
        last_component(p, s - 1)
    } else {
        None
    }
}

/// The last component of a path, unless there is none or it is `..`.
pub open spec fn file_name<A: PathUnit>(p: Seq<A>) -> Option<Seq<A>> {
    match last_component(p, p.len() as int) {
        Some((i, j)) => if p.subrange(i, j) == seq![A::dot(), A::dot()] {
            None
        } else {
            Some(p.subrange(i, j))
        },
        None => None,
    }
}

/// The path without its last component and without what separated the two. The
/// root and the empty path have no parent.
pub open spec fn parent<A: PathUnit>(p: Seq<A>) -> Option<Seq<A>> {
    let start = body_start(p);
    match last_component(p, p.len() as int) {
        Some((i, _)) => Some(
            p.take(
                match last_component(p, if i > start { i - 1 } else { start }) {
                    Some((_, end)) => end,
                    None => start,
                },
            ),
        ),
        None => if starts_in_current(p) {
            Some(Seq::empty())
        } else {
            None
        },
    }
}

/// `p` as seen from the directory `base`.
pub open spec fn joined<A: PathUnit>(base: Seq<A>, p: Seq<A>) -> Seq<A> {
    if absolute(p) {
        p
    } else if base.len() == 0 || base.last() == A::slash() {
        base + p
    } else {
        base.push(A::slash()) + p
    }
}

proof fn lemma_segment_start<A: PathUnit>(p: Seq<A>, start: int, end: int)
    requires
        0 <= start <= end <= p.len(),
    ensures
        start <= segment_start(p, start, end) <= end,
        forall|k: int| segment_start(p, start, end) <= k < end ==> p[k] != A::slash(),
        segment_start(p, start, end) == start || p[segment_start(p, start, end) - 1] == A::slash(),
    decreases end - start,
{
    if end <= start || p[end - 1] == A::slash() {
    } else {
        lemma_segment_start(p, start, end - 1);
    }
}

/// Whether the cut at `end` falls between two segments.
pub open spec fn at_boundary<A: PathUnit>(p: Seq<A>, end: int) -> bool {
    &&& 0 <= end <= p.len()
    &&& end == p.len() || p[end] == A::slash()
}

/// The last component of a path is a component, and no component comes behind
/// it. A path without one has no components at all.
pub proof fn last_component_is_last<A: PathUnit>(p: Seq<A>, end: int)
    requires
        at_boundary(p, end),
    ensures
        match last_component(p, end) {
            Some((i, j)) => {
                &&& is_component(p, i, j)
                &&& j <= end
                &&& forall|a: int, b: int| #[trigger] is_component(p, a, b) && b <= end ==> b <= j
            },
            None => forall|a: int, b: int| #[trigger] is_component(p, a, b) ==> b > end,
        },
    decreases end,
{
    let start = body_start(p);
    if end > start {
        lemma_segment_start(p, start, end);
        let s = segment_start(p, start, end);
        if s < end && !(end == s + 1 && p[s] == A::dot()) {
        } else {
            assert forall|a: int, b: int| #[trigger] is_component(p, a, b) && b <= end implies b < s by {
                if b >= s {
                    if b == end {
                        if a < s {
                            assert(p[s - 1] == A::slash());
                        }
                        assert(a == s) by {
                            if a > s {
                                assert(p[a - 1] == A::slash());
                            }
                        }
                    } else if b > s {
                        assert(p[b] == A::slash());
                    } else {
                        assert(b == s);
                        assert(p[s - 1] == A::slash());
                    }
                }
            }
            if start < s <= end {
                last_component_is_last(p, s - 1);
            }
        }
    }
}

/// A parent is shorter than the path it comes from.
pub proof fn parent_is_shorter<A: PathUnit>(p: Seq<A>)
    ensures
        parent(p) matches Some(q) ==> q.len() < p.len(),
{
    let start = body_start(p);
    last_component_is_last(p, p.len() as int);
    if let Some((i, j)) = last_component(p, p.len() as int) {
        let end = if i > start { i - 1 } else { start };
        if i > start {
            last_component_is_last(p, end);
        }
    }
}

/// The last component of the first `limit` units of `p`.
fn find_last_component<A: PathUnit>(p: &[A], limit: usize) -> (r: Option<(usize, usize)>)
    requires
        limit <= p@.len(),
    ensures
        match r {
            Some((i, j)) => i < j <= limit && last_component(p@, limit as int) == Some(
                (i as int, j as int),
            ),
            None => last_component(p@, limit as int) is None,
        },
{
    let start: usize = find_body_start(p);
    let mut end: usize = limit;
    while end > start
        invariant
            start == body_start(p@),
            end <= limit <= p@.len(),
            last_component(p@, end as int) == last_component(p@, limit as int),
        decreases end,
    {
        let s: usize = find_segment_start(p, start, end);
        if s < end && !(end - s == 1 && p[s].is_dot()) {
            return Some((s, end));
        }
        if s == start {
            return None;
        }
        end = s - 1;
    }
    None
}

/// Where the components of `p` begin.
fn find_body_start<A: PathUnit>(p: &[A]) -> (start: usize)
    ensures
        start == body_start(p@),
        start <= p@.len(),
{
    if is_absolute(p) || is_in_current(p) {
        1
    } else {
        0
    }
}

/// Whether `p` starts with an explicit `.`.
fn is_in_current<A: PathUnit>(p: &[A]) -> (b: bool)
    ensures
        b == starts_in_current(p@),
{
    p.len() > 0 && p[0].is_dot() && (p.len() == 1 || p[1].is_slash())
}

/// Where the segment that ends at `end` starts.
fn find_segment_start<A: PathUnit>(p: &[A], start: usize, end: usize) -> (s: usize)
    requires
        start <= end <= p@.len(),
    ensures
        s == segment_start(p@, start as int, end as int),
        start <= s <= end,
{
    let mut s: usize = end;
    while s > start && !p[s - 1].is_slash()
        invariant
            start <= s <= end <= p@.len(),
            segment_start(p@, start as int, s as int) == segment_start(
                p@,
                start as int,
                end as int,
            ),
        decreases s,
    {
        s = s - 1;
    }
    s
}

/// The units `p[from..to]` as a vector of their own.
fn copy_range<A: PathUnit>(p: &[A], from: usize, to: usize) -> (r: Vec<A>)
    requires
        from <= to <= p@.len(),
    ensures
        r@ == p@.subrange(from as int, to as int),
{
    let mut r: Vec<A> = Vec::new();
    let mut i: usize = from;
    while i < to
        invariant
            from <= i <= to <= p@.len(),
            r@ == p@.subrange(from as int, i as int),
        decreases to - i,
    {
        r.push(p[i]);
        i = i + 1;
    }
    r
}

/// Where the file name of `p` stands in it.
pub fn file_name_range<A: PathUnit>(p: &[A]) -> (r: Option<(usize, usize)>)
    ensures
        match r {
            Some((i, j)) => i <= j <= p@.len() && file_name(p@) == Some(
                p@.subrange(i as int, j as int),
            ),
            None => file_name(p@) is None,
        },
{
    match find_last_component(p, p.len()) {
        Some((i, j)) => {
            let dots: bool = j - i == 2 && p[i].is_dot() && p[i + 1].is_dot();
            proof {
                let name = p@.subrange(i as int, j as int);
                if dots {
                    assert(name =~= seq![A::dot(), A::dot()]);
                } else {
                    assert(name != seq![A::dot(), A::dot()]) by {
                        if name == seq![A::dot(), A::dot()] {
                            assert(name.len() == 2);
                            assert(name[0] == p@[i as int] && name[1] == p@[i + 1]);
                        }
                    }
                }
            }
            if dots {
                None
            } else {
                Some((i, j))
            }
        },
        None => None,
    }
}

/// The parent of `p`.
pub fn parent_path<A: PathUnit>(p: &[A]) -> (r: Option<Vec<A>>)
    ensures
        match r {
            Some(q) => parent(p@) == Some(q@),
            None => parent(p@) is None,
        },
{
    let start: usize = find_body_start(p);
    match find_last_component(p, p.len()) {
        Some((i, _)) => {
            let before: usize = if i > start {
                i - 1
            } else {
                start
            };
            proof {
                last_component_is_last(p@, p@.len() as int);
            }
            let end: usize = match find_last_component(p, before) {
                Some((_, end)) => end,
                None => start,
            };
            let q: Vec<A> = copy_range(p, 0, end);
            assert(q@ == p@.take(end as int));
            Some(q)
        },
        None => if is_in_current(p) {
            Some(Vec::new())
        } else {
            None
        },
    }
}

/// `p` as seen from the directory `base`.
pub fn join_path<A: PathUnit>(base: &[A], p: &[A]) -> (r: Vec<A>)
    ensures
        r@ == joined(base@, p@),
{
    if is_absolute(p) {
        let r: Vec<A> = copy_range(p, 0, p.len());
        assert(r@ == p@);
        return r;
    }
    let mut r: Vec<A> = copy_range(base, 0, base.len());
    assert(r@ == base@);
    if base.len() > 0 && !base[base.len() - 1].is_slash() {
        r.push(A::make_slash());
    }
    let mut rest: Vec<A> = copy_range(p, 0, p.len());
    assert(rest@ == p@);
    r.append(&mut rest);
    r
}

/// Whether `p` starts at the root.
pub fn is_absolute<A: PathUnit>(p: &[A]) -> (b: bool)
    ensures
        b == absolute(p@),
{
    p.len() > 0 && p[0].is_slash()
}

/// Slashes and dots are what they are in Unix paths.
pub proof fn units_are_those_of_unix()
    ensures
        <u8 as PathUnit>::slash() == 0x2f,
        <u8 as PathUnit>::dot() == 0x2e,
        <char as PathUnit>::slash() == '/',
        <char as PathUnit>::dot() == '.',
{
}

/// A path is absolute exactly if it starts with a slash.
pub proof fn absolute_paths_start_with_a_slash<A: PathUnit>(p: Seq<A>)
    ensures
        absolute(p) <==> p.len() > 0 && p[0] == A::slash(),
{
}

/// Joining keeps an absolute path, and puts a relative one behind the directory,
/// with one slash between them where the directory does not end in one.
pub proof fn joining_puts_paths_behind_directories<A: PathUnit>(base: Seq<A>, p: Seq<A>)
    ensures
        p.len() > 0 && p[0] == A::slash() ==> joined(base, p) == p,
        (p.len() == 0 || p[0] != A::slash()) && (base.len() == 0 || base.last() == A::slash())
            ==> joined(base, p) == base + p,
        (p.len() == 0 || p[0] != A::slash()) && base.len() > 0 && base.last() != A::slash()
            ==> joined(base, p) == base + seq![A::slash()] + p,
{
    assert(base + seq![A::slash()] + p =~= base.push(A::slash()) + p);
}

proof fn lemma_segment_start_at<A: PathUnit>(p: Seq<A>, start: int, s: int, end: int)
    requires
        0 <= start <= s <= end <= p.len(),
        forall|k: int| s <= k < end ==> p[k] != A::slash(),
        s == start || p[s - 1] == A::slash(),
    ensures
        segment_start(p, start, end) == s,
    decreases end - s,
{
    if s < end {
        lemma_segment_start_at(p, start, s, end - 1);
    }
}

proof fn lemma_same_segments<A: PathUnit>(p: Seq<A>, q: Seq<A>, start: int, end: int)
    requires
        0 <= start <= end <= p.len(),
        end <= q.len(),
        forall|k: int| 0 <= k < end ==> p[k] == q[k],
    ensures
        segment_start(p, start, end) == segment_start(q, start, end),
    decreases end - start,
{
    if end > start && p[end - 1] != A::slash() {
        lemma_same_segments(p, q, start, end - 1);
    }
}

proof fn lemma_same_components<A: PathUnit>(p: Seq<A>, q: Seq<A>, end: int)
    requires
        0 <= end <= p.len(),
        end <= q.len(),
        forall|k: int| 0 <= k < end ==> p[k] == q[k],
        body_start(p) == body_start(q),
    ensures
        last_component(p, end) == last_component(q, end),
    decreases end,
{
    let start = body_start(p);
    if end > start {
        lemma_same_segments(p, q, start, end);
        lemma_segment_start(p, start, end);
        let s = segment_start(p, start, end);
        if start < s {
            lemma_same_components(p, q, s - 1);
        }
    }
}

/// The last component of a path that ends in one.
proof fn lemma_last_name<A: PathUnit>(directory: Seq<A>, name: Seq<A>)
    requires
        directory.len() == 0 || directory.last() == A::slash(),
        name.len() > 0,
        !name.contains(A::slash()),
        name != seq![A::dot()],
        A::slash() != A::dot(),
    ensures
        last_component(directory + name, (directory + name).len() as int) == Some(
            (directory.len() as int, (directory + name).len() as int),
        ),
        body_start(directory + name) <= directory.len(),
{
    let p = directory + name;
    let d = directory.len() as int;
    let end = p.len() as int;
    assert forall|k: int| d <= k < end implies p[k] != A::slash() by {
        assert(p[k] == name[k - d]);
        assert(name.contains(name[k - d]));
    }
    assert(body_start(p) <= d) by {
        if d == 0 {
            assert(p[0] == name[0]);
            if starts_in_current(p) {
                if p.len() == 1 {
                    assert(name =~= seq![A::dot()]);
                } else {
                    assert(p[1] != A::slash());
                }
            }
        }
    }
    if d > 0 {
        assert(p[d - 1] == directory.last());
    }
    lemma_segment_start_at(p, body_start(p), d, end);
    if end == d + 1 && p[d] == A::dot() {
        assert(name =~= seq![A::dot()]);
    }
}

/// The file name of a path is what stands behind its last slash, unless that is
/// empty, a dot or two dots.
pub proof fn names_stand_behind_the_last_slash<A: PathUnit>(directory: Seq<A>, name: Seq<A>)
    requires
        directory.len() == 0 || directory.last() == A::slash(),
        name.len() > 0,
        !name.contains(A::slash()),
        name != seq![A::dot()],
        A::slash() != A::dot(),
    ensures
        name != seq![A::dot(), A::dot()] ==> file_name(directory + name) == Some(name),
        name == seq![A::dot(), A::dot()] ==> file_name(directory + name) is None,
{
    let p = directory + name;
    lemma_last_name(directory, name);
    assert(p.subrange(directory.len() as int, p.len() as int) =~= name);
}

proof fn lemma_trailing_slash<A: PathUnit>(p: Seq<A>)
    requires
        A::slash() != A::dot(),
    ensures
        ({
            let q = p.push(A::slash());
            &&& p.len() > 0 ==> body_start(q) == body_start(p)
            &&& last_component(q, q.len() as int) == last_component(p, p.len() as int)
        }),
{
    let q = p.push(A::slash());
    let n = p.len() as int;
    if n > 0 {
        assert(q[0] == p[0]);
        if n > 1 {
            assert(q[1] == p[1]);
        }
        let start = body_start(q);
        lemma_segment_start_at(q, start, n + 1, n + 1);
        if start < n + 1 {
            lemma_same_components(p, q, n);
        }
    } else {
        assert(body_start(q) == 1);
        assert(last_component(q, 1) is None);
    }
}

proof fn lemma_trailing_dot<A: PathUnit>(p: Seq<A>)
    requires
        A::slash() != A::dot(),
        p.len() > 0,
    ensures
        ({
            let q = p + seq![A::slash(), A::dot()];
            &&& body_start(q) == body_start(p)
            &&& last_component(q, q.len() as int) == last_component(p, p.len() as int)
        }),
{
    let q = p + seq![A::slash(), A::dot()];
    let n = p.len() as int;
    assert(q[0] == p[0]);
    assert(q[n] == A::slash() && q[n + 1] == A::dot());
    if n > 1 {
        assert(q[1] == p[1]);
    }
    let start = body_start(q);
    lemma_segment_start_at(q, start, n + 1, n + 2);
    lemma_same_components(p, q, n);
}

/// Slashes and dots at the end of a path name nothing: they change neither the file
/// name nor the parent. An empty path, a root and a dot have no file name.
pub proof fn slashes_and_dots_at_the_end_name_nothing<A: PathUnit>(p: Seq<A>)
    requires
        A::slash() != A::dot(),
    ensures
        file_name(p.push(A::slash())) == file_name(p),
        parent(p.push(A::slash())) == parent(p),
        p.len() > 0 ==> file_name(p + seq![A::slash(), A::dot()]) == file_name(p),
        p.len() > 0 ==> parent(p + seq![A::slash(), A::dot()]) == parent(p),
        file_name(Seq::<A>::empty()) is None,
        file_name(seq![A::slash()]) is None,
        file_name(seq![A::dot()]) is None,
        parent(Seq::<A>::empty()) is None,
        parent(seq![A::slash()]) is None,
        parent(seq![A::dot()]) == Some(Seq::<A>::empty()),
{
    let q = p.push(A::slash());
    let n = p.len() as int;
    lemma_trailing_slash(p);
    last_component_is_last(p, n);
    lemma_nothing_in_roots::<A>();
    if let Some((i, j)) = last_component(p, n) {
        assert(q.subrange(i, j) =~= p.subrange(i, j));
        lemma_same_parent(p, q, i, j);
    } else if n > 0 {
        assert(q[0] == p[0]);
        if n > 1 {
            assert(q[1] == p[1]);
        }
    }
    if n > 0 {
        let r = p + seq![A::slash(), A::dot()];
        lemma_trailing_dot(p);
        assert(r[0] == p[0]);
        if n > 1 {
            assert(r[1] == p[1]);
        } else {
            assert(r[1] == A::slash());
        }
        if let Some((i, j)) = last_component(p, n) {
            assert(r.subrange(i, j) =~= p.subrange(i, j));
            lemma_same_parent(p, r, i, j);
        }
    }
}

proof fn lemma_nothing_in_roots<A: PathUnit>()
    requires
        A::slash() != A::dot(),
    ensures
        last_component(Seq::<A>::empty(), 0) is None,
        last_component(seq![A::slash()], 1) is None,
        last_component(seq![A::dot()], 1) is None,
{
    assert(body_start(seq![A::slash()]) == 1);
    assert(body_start(seq![A::dot()]) == 1);
}

proof fn lemma_same_parent<A: PathUnit>(p: Seq<A>, q: Seq<A>, i: int, j: int)
    requires
        p.len() <= q.len(),
        forall|k: int| 0 <= k < p.len() ==> p[k] == q[k],
        body_start(p) == body_start(q),
        last_component(p, p.len() as int) == Some((i, j)),
        last_component(q, q.len() as int) == Some((i, j)),
        is_component(p, i, j),
    ensures
        parent(q) == parent(p),
{
    let start = body_start(p);
    let before = if i > start {
        i - 1
    } else {
        start
    };
    lemma_same_components(p, q, before);
    if i > start {
        last_component_is_last(p, before);
    }
    let end = match last_component(p, before) {
        Some((_, end)) => end,
        None => start,
    };
    assert(q.take(end) =~= p.take(end));
}

proof fn lemma_segment_end<A: PathUnit>(p: Seq<A>, k: int) -> (e: int)
    requires
        0 <= k <= p.len(),
    ensures
        k <= e <= p.len(),
        forall|i: int| k <= i < e ==> p[i] != A::slash(),
        e == p.len() || p[e] == A::slash(),
    decreases p.len() - k,
{
    if k == p.len() || p[k] == A::slash() {
        k
    } else {
        lemma_segment_end(p, k + 1)
    }
}

/// Between the last component and `end` there are only slashes and single dots.
proof fn lemma_gap<A: PathUnit>(p: Seq<A>, end: int, k: int)
    requires
        at_boundary(p, end),
        body_start(p) <= k < end,
        match last_component(p, end) {
            Some((_, b)) => b <= k,
            None => true,
        },
    ensures
        p[k] == A::slash() || {
            &&& p[k] == A::dot()
            &&& k == body_start(p) || p[k - 1] == A::slash()
            &&& k + 1 == p.len() || p[k + 1] == A::slash()
        },
{
    let start = body_start(p);
    if p[k] != A::slash() {
        last_component_is_last(p, end);
        lemma_segment_start(p, start, k);
        let s = segment_start(p, start, k);
        let e = lemma_segment_end(p, k);
        assert(e <= end);
        assert forall|i: int| s <= i < e implies p[i] != A::slash() by {}
        if !(e == s + 1 && p[s] == A::dot()) {
            assert(is_component(p, s, e));
        }
    }
}

/// The parent of a path is what stands before its last name, without the slashes
/// and single dots at the end. A leading slash or dot stays.
pub proof fn parents_end_before_the_last_name<A: PathUnit>(directory: Seq<A>, name: Seq<A>)
    requires
        directory.len() == 0 || directory.last() == A::slash(),
        name.len() > 0,
        !name.contains(A::slash()),
        name != seq![A::dot()],
        A::slash() != A::dot(),
    ensures
        parent(directory + name) matches Some(q) && {
            &&& q.len() <= directory.len()
            &&& q == directory.take(q.len() as int)
            &&& forall|k: int|
                q.len() <= k < directory.len() ==> #[trigger] directory[k] == A::slash() || (
                directory[k] == A::dot() && k > 0 && directory[k - 1] == A::slash()
                    && directory[k + 1] == A::slash())
            &&& directory.len() > 0 && directory[0] == A::slash() ==> q.len() > 0
            &&& q.len() > 1 ==> q.last() != A::slash() && !(q.last() == A::dot() && q[q.len() - 2]
                == A::slash())
        },
{
    let p = directory + name;
    let d = directory.len() as int;
    let start = body_start(p);
    lemma_last_name(directory, name);
    let before = if d > start {
        d - 1
    } else {
        start
    };
    if d > 0 {
        assert(p[0] == directory[0]);
        assert(p[d - 1] == directory[d - 1]);
    }
    let last = last_component(p, before);
    let end = match last {
        Some((_, end)) => end,
        None => start,
    };
    if d > start {
        last_component_is_last(p, before);
    } else {
        assert(last is None);
    }
    let q = p.take(end);
    assert(parent(p) == Some(q));
    assert(q =~= directory.take(end));
    assert forall|k: int| end <= k < d implies #[trigger] directory[k] == A::slash() || (
    directory[k] == A::dot() && k > 0 && directory[k - 1] == A::slash() && directory[k + 1]
        == A::slash()) by {
        assert(p[k] == directory[k]);
        if k < before {
            lemma_gap(p, before, k);
            if p[k] != A::slash() {
                assert(p[k + 1] == directory[k + 1]);
                if k == start {
                    assert(k > 0) by {
                        if k == 0 {
                            assert(p[1] == directory[1]);
                            assert(starts_in_current(p));
                        }
                    }
                    if starts_in_current(p) {
                        assert(p.len() > 1);
                        assert(p[1] == A::slash());
                    } else {
                        assert(p[0] == A::slash());
                    }
                }
                assert(p[k - 1] == directory[k - 1]);
            }
        }
    }
    if end > 1 {
        let (a, b) = last.unwrap();
        assert(is_component(p, a, b));
        assert(q.last() == p[b - 1]);
        assert(q[b - 2] == p[b - 2]);
    }
}

} // verus!
