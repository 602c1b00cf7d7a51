//! The path of an entry as path filters see it: relative to the base
//! directory of the search where it lies under it, read component by
//! component as Unix paths are (`std::path::Path::components`).
use vstd::prelude::*;
use crate::text::opt_view;
use crate::text::{chars_of, string_of, joined_with, join_with};

verus! {

/// A component of a path.
#[derive(Debug, Clone, PartialEq, Eq)]
pub enum PathComponent {
    /// The root, `/`.
    Root,
    /// `.` at the start of a relative path.
    Cur,
    /// `..`.
    Parent,
    /// A name.
    Normal(String),
}

/// A component as the contracts see it.
pub enum ComponentView {
    Root,
    Cur,
    Parent,
    Normal(Seq<char>),
}

/// The view of a component.
pub open spec fn component_view(c: PathComponent) -> ComponentView {
    match c {
        PathComponent::Root => ComponentView::Root,
        PathComponent::Cur => ComponentView::Cur,
        PathComponent::Parent => ComponentView::Parent,
        PathComponent::Normal(s) => ComponentView::Normal(s@),
    }
}

/// The views of components.
pub open spec fn component_views(v: Seq<PathComponent>) -> Seq<ComponentView> {
    v.map_values(|c: PathComponent| component_view(c))
}

/// The parts of `p` between slashes (as `str::split('/')` gives them).
pub open spec fn segments(p: Seq<char>) -> Seq<Seq<char>>
    decreases p.len(),
{
    if p.len() == 0 {
        seq![Seq::empty()]
    } else if p.last() == '/' {
        segments(p.drop_last()).push(Seq::empty())
    } else {
        let s = segments(p.drop_last());
        s.update(s.len() - 1, s.last().push(p.last()))
    }
}

/// There is always at least one segment.
proof fn lemma_segments_nonempty(p: Seq<char>)
    ensures
        segments(p).len() >= 1,
    decreases p.len(),
{
    if p.len() > 0 {
        lemma_segments_nonempty(p.drop_last());
    }
}

/// The component that a segment after the first gives: none for an empty
/// segment or `.`.
pub open spec fn segment_component(s: Seq<char>) -> Seq<ComponentView> {
    if s.len() == 0 || s == seq!['.'] {
        Seq::empty()
    } else if s == seq!['.', '.'] {
        seq![ComponentView::Parent]
    } else {
        seq![ComponentView::Normal(s)]
    }
}

/// The components that the segments `v` give, in order.
pub open spec fn segment_components(v: Seq<Seq<char>>) -> Seq<ComponentView>
    decreases v.len(),
{
    if v.len() == 0 {
        Seq::empty()
    } else {
        segment_components(v.drop_last()) + segment_component(v.last())
    }
}

/// The components of a Unix path: the root where it starts with `/`, `.`
/// where a relative path starts with it, then one component per name or
/// `..`, repeated slashes and other `.` ignored.
pub open spec fn components_spec(p: Seq<char>) -> Seq<ComponentView> {
    let s = segments(p);
    if p.len() > 0 && p[0] == '/' {
        seq![ComponentView::Root] + segment_components(s.drop_first())
    } else if s[0] == seq!['.'] {
        seq![ComponentView::Cur] + segment_components(s.drop_first())
    } else {
        segment_components(s)
    }
}

/// The segments of `p`, in order.
fn split_segments(p: &Vec<char>) -> (r: Vec<Vec<char>>)
    ensures
        r@.len() >= 1,
        r@.map_values(|s: Vec<char>| s@) == segments(p@),
{
    let mut done: Vec<Vec<char>> = Vec::new();
    let mut cur: Vec<char> = Vec::new();
    let mut i: usize = 0;
    assert(p@.take(0) =~= Seq::<char>::empty());
    assert(done@.map_values(|s: Vec<char>| s@).push(cur@) =~= segments(p@.take(0)));
    while i < p.len()
        invariant
            i <= p@.len(),
            done@.map_values(|s: Vec<char>| s@).push(cur@) == segments(p@.take(i as int)),
        decreases p@.len() - i,
    {
        let c = p[i];
        let ghost prev = segments(p@.take(i as int));
        assert(p@.take(i + 1).drop_last() =~= p@.take(i as int));
        assert(p@.take(i + 1).last() == c);
        if c == '/' {
            let ghost d0 = done@;
            let finished = cur;
            done.push(finished);
            cur = Vec::new();
            assert(done@.map_values(|s: Vec<char>| s@) =~= d0.map_values(|s: Vec<char>| s@).push(finished@));
            assert(done@.map_values(|s: Vec<char>| s@).push(cur@) =~= prev.push(Seq::empty()));
        } else {
            let ghost c0 = cur@;
            cur.push(c);
            assert(done@.map_values(|s: Vec<char>| s@).push(cur@) =~= prev.update(prev.len() - 1, prev.last().push(c)));
        }
        i += 1;
    }
    assert(p@.take(p@.len() as int) =~= p@);
    let ghost d0 = done@;
    done.push(cur);
    assert(done@.map_values(|s: Vec<char>| s@) =~= d0.map_values(|s: Vec<char>| s@).push(cur@));
    done
}

/// Whether `v` holds exactly the characters of `lit`.
fn chars_are(v: &Vec<char>, lit: &[char]) -> (r: bool)
    ensures
        r == (v@ == lit@),
{
    if v.len() != lit.len() {
        return false;
    }
    let mut i: usize = 0;
    while i < v.len()
        invariant
            i <= v@.len() == lit@.len(),
            forall|j: int| 0 <= j < i ==> v@[j] == lit@[j],
        decreases v@.len() - i,
    {
        if v[i] != lit[i] {
            return false;
        }
        i += 1;
    }
    assert(v@ =~= lit@);
    true
}

/// The components of a Unix path.
pub fn path_components(p: &str) -> (r: Vec<PathComponent>)
    ensures
        component_views(r@) == components_spec(p@),
{
    let v = chars_of(p);
    let segs = split_segments(&v);
    let ghost sv = segs@.map_values(|s: Vec<char>| s@);
    let mut out: Vec<PathComponent> = Vec::new();
    let root = v.len() > 0 && v[0] == '/';
    let dot: [char; 1] = ['.'];
    let dotdot: [char; 2] = ['.', '.'];
    assert(dot@ =~= seq!['.']);
    assert(dotdot@ =~= seq!['.', '.']);
    assert(sv[0] == segs@[0]@);
    let first_is_dot = chars_are(&segs[0], &dot);
    let start: usize = if root {
        out.push(PathComponent::Root);
        1
    } else if first_is_dot {
        out.push(PathComponent::Cur);
        1
    } else {
        0
    };
    let ghost head = component_views(out@);
    let mut k: usize = start;
    proof {
        assert(sv.skip(start as int).take(0) =~= Seq::<Seq<char>>::empty());
        assert(component_views(out@) =~= head + segment_components(Seq::<Seq<char>>::empty()));
    }
    while k < segs.len()
        invariant
            start <= k <= segs@.len(),
            sv == segs@.map_values(|s: Vec<char>| s@),
            dot@ == seq!['.'],
            dotdot@ == seq!['.', '.'],
            component_views(out@) == head + segment_components(sv.subrange(start as int, k as int)),
        decreases segs@.len() - k,
    {
        let s = &segs[k];
        assert(sv[k as int] == s@);
        let ghost before = component_views(out@);
        if s.len() == 0 || chars_are(s, &dot) {
        } else if chars_are(s, &dotdot) {
            out.push(PathComponent::Parent);
        } else {
            out.push(PathComponent::Normal(string_of(s.as_slice())));
        }
        proof {
            let w = sv.subrange(start as int, k + 1);
            assert(w.drop_last() =~= sv.subrange(start as int, k as int));
            assert(w.last() == s@);
            assert(component_views(out@) =~= before + segment_component(s@));
        }
        k += 1;
    }
    proof {
        assert(sv.subrange(start as int, segs@.len() as int) =~= sv.skip(start as int));
        if !root && !first_is_dot {
            assert(sv.skip(0) =~= sv);
        }
        if root {
            assert(v@[0] == '/');
        }
    }
    out
}

/// The components of `path` after those of `base`, where `base`'s are a
/// prefix of them (`Path::strip_prefix` compares whole components).
pub open spec fn strip_components(path: Seq<ComponentView>, base: Seq<ComponentView>) -> Option<Seq<ComponentView>> {
    if base.len() <= path.len() && path.take(base.len() as int) == base {
        Some(path.skip(base.len() as int))
    } else {
        None
    }
}

/// `v` without its leading `.` components.
pub open spec fn drop_leading_cur(v: Seq<ComponentView>) -> Seq<ComponentView>
    decreases v.len(),
{
    if v.len() > 0 && v[0] is Cur { drop_leading_cur(v.drop_first()) } else { v }
}

/// The text of a component as it is joined into a path.
pub open spec fn component_text(c: ComponentView) -> Seq<char> {
    match c {
        ComponentView::Root => Seq::empty(),
        ComponentView::Cur => seq!['.'],
        ComponentView::Parent => seq!['.', '.'],
        ComponentView::Normal(s) => s,
    }
}

/// The text of a list of components: joined by `/`, after a `/` where the
/// first is the root.
pub open spec fn render_components(v: Seq<ComponentView>) -> Seq<char> {
    if v.len() > 0 && v[0] is Root {
        seq!['/'] + joined_with(v.drop_first().map_values(|c: ComponentView| component_text(c)), seq!['/'])
    } else {
        joined_with(v.map_values(|c: ComponentView| component_text(c)), seq!['/'])
    }
}

/// The path that filters see of an entry under a base directory: its
/// components after the base's, leading `.` dropped, joined by `/`;
/// `None` where the base is not a prefix of it.
pub open spec fn relative_path_spec(path: Seq<char>, base: Seq<char>) -> Option<Seq<char>> {
    match strip_components(components_spec(path), components_spec(base)) {
        Some(r) => Some(render_components(drop_leading_cur(r))),
        None => None,
    }
}

/// Whether two components are the same.
fn same_component(a: &PathComponent, b: &PathComponent) -> (r: bool)
    ensures
        r == (component_view(*a) == component_view(*b)),
{
    match (a, b) {
        (PathComponent::Root, PathComponent::Root) => true,
        (PathComponent::Cur, PathComponent::Cur) => true,
        (PathComponent::Parent, PathComponent::Parent) => true,
        (PathComponent::Normal(x), PathComponent::Normal(y)) => x.eq(y),
        _ => false,
    }
}

/// The text of a component.
fn component_string(c: &PathComponent) -> (r: String)
    ensures
        r@ == component_text(component_view(*c)),
{
    match c {
        PathComponent::Root => String::new(),
        PathComponent::Cur => {
            let t = ".".to_owned();
            proof { reveal_strlit("."); }
            t
        },
        PathComponent::Parent => {
            let t = "..".to_owned();
            proof { reveal_strlit(".."); }
            t
        },
        PathComponent::Normal(s) => s.clone(),
    }
}

/// The path of `path` relative to `base`, as path filters see it, where
/// `base` is a prefix of it.
pub fn relative_filter_path(path: &str, base: &str) -> (r: Option<String>)
    ensures
        opt_view(r) == relative_path_spec(path@, base@),
{
    let pc = path_components(path);
    let bc = path_components(base);
    let ghost pv = component_views(pc@);
    let ghost bv = component_views(bc@);
    if bc.len() > pc.len() {
        return None;
    }
    let mut i: usize = 0;
    while i < bc.len()
        invariant
            i <= bc@.len() <= pc@.len(),
            pv == component_views(pc@),
            pv == components_spec(path@),
            bv == components_spec(base@),
            bv == component_views(bc@),
            forall|j: int| 0 <= j < i ==> pv[j] == bv[j],
        decreases bc@.len() - i,
    {
        if !same_component(&pc[i], &bc[i]) {
            proof {
                assert(pv[i as int] == component_view(pc@[i as int]));
                assert(bv[i as int] == component_view(bc@[i as int]));
                assert(pv.take(bv.len() as int)[i as int] != bv[i as int]);
                assert(pv.take(bv.len() as int) != bv);
            }
            return None;
        }
        i += 1;
    }
    assert(pv.take(bv.len() as int) =~= bv);
    let n = bc.len();
    let mut k = n;
    while k < pc.len() && matches!(pc[k], PathComponent::Cur)
        invariant
            n <= k <= pc@.len(),
            n == bv.len(),
            pv == component_views(pc@),
            pv == components_spec(path@),
            bv == components_spec(base@),
            drop_leading_cur(pv.skip(n as int)) == drop_leading_cur(pv.skip(k as int)),
        decreases pc@.len() - k,
    {
        assert(pv.skip(k as int).drop_first() =~= pv.skip(k + 1));
        k += 1;
    }
    let ghost rest = pv.skip(k as int);
    assert(drop_leading_cur(rest) == rest) by {
        if rest.len() > 0 {
            assert(rest[0] == component_view(pc@[k as int]));
        }
    }
    let mut names: Vec<String> = Vec::new();
    let root_first = k < pc.len() && matches!(pc[k], PathComponent::Root);
    let from = if root_first { k + 1 } else { k };
    let mut m = from;
    while m < pc.len()
        invariant
            from <= m <= pc@.len(),
            pv == component_views(pc@),
            pv == components_spec(path@),
            names@.map_values(|s: String| s@) == pv.subrange(from as int, m as int).map_values(|c: ComponentView| component_text(c)),
        decreases pc@.len() - m,
    {
        let t = component_string(&pc[m]);
        let ghost before = names@;
        names.push(t);
        proof {
            assert(pv[m as int] == component_view(pc@[m as int]));
            assert(names@.map_values(|s: String| s@) =~= before.map_values(|s: String| s@).push(t@));
            assert(pv.subrange(from as int, m + 1) =~= pv.subrange(from as int, m as int).push(pv[m as int]));
            assert(pv.subrange(from as int, m + 1).map_values(|c: ComponentView| component_text(c))
                =~= pv.subrange(from as int, m as int).map_values(|c: ComponentView| component_text(c)).push(component_text(pv[m as int])));
        }
        assert(names@.map_values(|s: String| s@) =~= pv.subrange(from as int, m + 1).map_values(|c: ComponentView| component_text(c)));
        m += 1;
    }
    let joined = join_with(&names, "/");
    proof {
        reveal_strlit("/");
        assert("/"@ =~= seq!['/']);
        assert(pv.subrange(from as int, pc@.len() as int) =~= if root_first { rest.drop_first() } else { rest });
        assert(names@.map_values(|s: String| s@) =~= pv.subrange(from as int, pc@.len() as int).map_values(|c: ComponentView| component_text(c)));
        assert(strip_components(pv, bv) == Some(pv.skip(n as int)));
        assert(drop_leading_cur(pv.skip(n as int)) == rest);
        if root_first {
            assert(rest[0] == component_view(pc@[k as int]));
            assert(rest[0] is Root);
            assert(render_components(rest) == seq!['/'] + joined@);
        } else {
            if rest.len() > 0 {
                assert(rest[0] == component_view(pc@[k as int]));
                assert(!(rest[0] is Root));
            }
            assert(render_components(rest) == joined@);
        }
    }
    if root_first {
        assert(rest[0] == component_view(pc@[k as int]));
        let mut out = "/".to_owned();
        out.append(joined.as_str());
        proof {
            reveal_strlit("/");
        }
        Some(out)
    } else {
        proof {
            if rest.len() > 0 {
                assert(rest[0] == component_view(pc@[k as int]));
            }
        }
        Some(joined)
    }
}

/// The path that the path filters of a search see for an entry: relative
/// to the base directory where there is one and it is a prefix of the
/// entry's path, the entry's path as it is where there is no base.
/// `None` where the base is not a prefix (the caller may then try the
/// canonical forms of both paths).
pub fn filter_path(path: &str, base: Option<&str>) -> (r: Option<String>)
    ensures
        match base {
            Some(b) => opt_view(r) == relative_path_spec(path@, b@),
            None => r matches Some(p) && p@ == path@,
        },
{
    match base {
        Some(b) => relative_filter_path(path, b),
        None => Some(path.to_owned()),
    }
}

} // verus!
