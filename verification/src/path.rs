//! Unix file-system paths as strings: their components, joining and file stems.
//!
//! The rules are those of `std::path` on Unix: a leading '/' is the root, empty segments and
//! "." segments are dropped (except a "." that opens a relative path), ".." is the parent
//! directory, and joining a relative part inserts a single '/'.

use vstd::prelude::*;
use vstd::string::*;

verus! {

/// A single component of a path.
#[derive(Clone, Debug, PartialEq)]
pub enum Component {
    RootDir,
    CurDir,
    ParentDir,
    Normal(String),
}

/// A component with its name as a character sequence.
pub enum ComponentView {
    RootDir,
    CurDir,
    ParentDir,
    Normal(Seq<char>),
}

impl Component {
    pub open spec fn view(&self) -> ComponentView {
        match self {
            Component::RootDir => ComponentView::RootDir,
            Component::CurDir => ComponentView::CurDir,
            Component::ParentDir => ComponentView::ParentDir,
            Component::Normal(n) => ComponentView::Normal(n@),
        }
    }
}

/// The views of a sequence of components.
pub open spec fn components_view(v: Seq<Component>) -> Seq<ComponentView> {
    v.map_values(|c: Component| c.view())
}

/// The segments of `s` between its '/' separators (empty segments included).
pub open spec fn segments(s: Seq<char>) -> Seq<Seq<char>>
    decreases s.len(),
{
    if s.len() == 0 {
        seq![Seq::<char>::empty()]
    } else if s.last() == '/' {
        segments(s.drop_last()).push(Seq::<char>::empty())
    } else {
        let segs = segments(s.drop_last());
        segs.update(segs.len() - 1, segs.last().push(s.last()))
    }
}

/// Whether the path begins at the root.
pub open spec fn is_rooted(s: Seq<char>) -> bool {
    s.len() > 0 && s[0] == '/'
}

/// The component, if any, that the segment at index `i` of a path stands for.
pub open spec fn segment_component(seg: Seq<char>, i: int, rooted: bool) -> Option<ComponentView> {
    if seg.len() == 0 {
        None
    } else if seg == "."@ {
        if i == 0 && !rooted { Some(ComponentView::CurDir) } else { None }
    } else if seg == ".."@ {
        Some(ComponentView::ParentDir)
    } else {
        Some(ComponentView::Normal(seg))
    }
}

/// The components that a sequence of segments stands for.
pub open spec fn segments_components(segs: Seq<Seq<char>>, rooted: bool) -> Seq<ComponentView>
    decreases segs.len(),
{
    if segs.len() == 0 {
        Seq::empty()
    } else {
        let prev = segments_components(segs.drop_last(), rooted);
        match segment_component(segs.last(), segs.len() - 1, rooted) {
            Some(c) => prev.push(c),
            None => prev,
        }
    }
}

/// The components of a path.
pub open spec fn components(s: Seq<char>) -> Seq<ComponentView> {
    let tail = segments_components(segments(s), is_rooted(s));
    if is_rooted(s) { seq![ComponentView::RootDir] + tail } else { tail }
}

/// The text of a component.
pub open spec fn component_text(c: ComponentView) -> Seq<char> {
    match c {
        ComponentView::RootDir => "/"@,
        ComponentView::CurDir => "."@,
        ComponentView::ParentDir => ".."@,
        ComponentView::Normal(n) => n,
    }
}

/// `base` with `part` pushed onto it: an absolute part replaces the path, a relative part is
/// appended after a '/' unless `base` is empty or already ends with one.
pub open spec fn push_text(base: Seq<char>, part: Seq<char>) -> Seq<char> {
    if part.len() > 0 && part[0] == '/' {
        part
    } else if base.len() > 0 && base.last() != '/' {
        base + "/"@ + part
    } else {
        base + part
    }
}

/// The path that is made of the given components.
pub open spec fn render(cs: Seq<ComponentView>) -> Seq<char>
    decreases cs.len(),
{
    if cs.len() == 0 {
        Seq::empty()
    } else {
        push_text(render(cs.drop_last()), component_text(cs.last()))
    }
}

/// The index of the last '.' in a name, if any.
pub open spec fn last_dot(name: Seq<char>) -> Option<int>
    decreases name.len(),
{
    if name.len() == 0 {
        None
    } else if name.last() == '.' {
        Some(name.len() - 1)
    } else {
        last_dot(name.drop_last())
    }
}

/// The stem of a file name: the name without its extension, where a leading '.' does not start
/// an extension.
pub open spec fn name_stem(name: Seq<char>) -> Seq<char> {
    match last_dot(name) {
        Some(i) => if i > 0 { name.subrange(0, i) } else { name },
        None => name,
    }
}

/// The stem of the last component of a path, if that component is a name.
pub open spec fn file_stem(s: Seq<char>) -> Option<Seq<char>> {
    let cs = components(s);
    if cs.len() > 0 {
        match cs.last() {
            ComponentView::Normal(n) => Some(name_stem(n)),
            _ => None,
        }
    } else {
        None
    }
}

proof fn lemma_segments_nonempty(s: Seq<char>)
    ensures
        segments(s).len() >= 1,
    decreases s.len(),
{
    if s.len() > 0 {
        lemma_segments_nonempty(s.drop_last());
    }
}

/// Append the component, if any, that the segment at index `seg_index` stands for.
fn push_segment(out: &mut Vec<Component>, seg: &str, seg_index: usize, rooted: bool)
    ensures
        components_view(final(out)@) == match segment_component(seg@, seg_index as int, rooted) {
            Some(c) => components_view(old(out)@).push(c),
            None => components_view(old(out)@),
        },
{
    proof {
        reveal_strlit(".");
        reveal_strlit("..");
    }
    let len = seg.unicode_len();
    let is_dot = len == 1 && seg.get_char(0) == '.';
    let is_dotdot = len == 2 && seg.get_char(0) == '.' && seg.get_char(1) == '.';
    proof {
        if seg@ == "."@ { assert(seg@[0] == "."@[0]); }
        if is_dot { assert(seg@ =~= "."@); }
        if seg@ == ".."@ { assert(seg@[0] == ".."@[0] && seg@[1] == ".."@[1]); }
        if is_dotdot { assert(seg@ =~= ".."@); }
    }
    if len == 0 {
    } else if is_dot {
        if seg_index == 0 && !rooted {
            out.push(Component::CurDir);
        }
    } else if is_dotdot {
        out.push(Component::ParentDir);
    } else {
        out.push(Component::Normal(String::from_str(seg)));
    }
    proof {
        assert(components_view(out@) =~= match segment_component(seg@, seg_index as int, rooted) {
            Some(c) => components_view(old(out)@).push(c),
            None => components_view(old(out)@),
        });
    }
}

/// The components of `prefix` followed by those of the given segments.
proof fn lemma_segments_components_push(segs: Seq<Seq<char>>, seg: Seq<char>, rooted: bool)
    ensures
        segments_components(segs.push(seg), rooted) == match segment_component(seg, segs.len() as int, rooted) {
            Some(c) => segments_components(segs, rooted).push(c),
            None => segments_components(segs, rooted),
        },
{
    assert(segs.push(seg).drop_last() =~= segs);
}

/// Split a path into its components.
pub fn components_of(s: &str) -> (r: Vec<Component>)
    ensures
        components_view(r@) == components(s@),
{
    let n = s.unicode_len();
    let ghost sv = s@;
    let rooted = n > 0 && s.get_char(0) == '/';
    let mut out: Vec<Component> = Vec::new();
    if rooted {
        out.push(Component::RootDir);
    }
    let ghost prefix: Seq<ComponentView> = if rooted { seq![ComponentView::RootDir] } else { Seq::empty() };
    // Segments closed so far, and the start of the current segment.
    let ghost mut closed: Seq<Seq<char>> = Seq::empty();
    let mut seg_index: usize = 0;
    let mut start: usize = 0;
    let mut i: usize = 0;
    proof {
        assert(sv.subrange(0, 0) =~= Seq::<char>::empty());
        assert(segments(sv.subrange(0, 0)) =~= closed.push(sv.subrange(0, 0)));
        assert(components_view(out@) =~= prefix + segments_components(closed, rooted));
    }
    while i < n
        invariant
            n == sv.len(),
            sv == s@,
            rooted == is_rooted(sv),
            prefix == (if rooted { seq![ComponentView::RootDir] } else { Seq::<ComponentView>::empty() }),
            start <= i <= n,
            seg_index == closed.len(),
            seg_index <= i,
            segments(sv.subrange(0, i as int)) == closed.push(sv.subrange(start as int, i as int)),
            components_view(out@) == prefix + segments_components(closed, rooted),
        decreases n - i,
    {
        let t = Ghost(sv.subrange(0, i as int + 1));
        proof {
            assert(t@.drop_last() =~= sv.subrange(0, i as int));
            assert(t@.last() == sv[i as int]);
            lemma_segments_nonempty(sv.subrange(0, i as int));
        }
        if s.get_char(i) == '/' {
            let seg = s.substring_char(start, i);
            let ghost prev = components_view(out@);
            push_segment(&mut out, seg, seg_index, rooted);
            proof {
                lemma_segments_components_push(closed, seg@, rooted);
                let sc = segments_components(closed, rooted);
                match segment_component(seg@, closed.len() as int, rooted) {
                    Some(c) => {
                        assert((prefix + sc).push(c) =~= prefix + sc.push(c));
                    },
                    None => {},
                }
                assert(sv.subrange(i as int + 1, i as int + 1) =~= Seq::<char>::empty());
                closed = closed.push(seg@);
            }
            seg_index = seg_index + 1;
            start = i + 1;
        } else {
            proof {
                assert(sv.subrange(start as int, i as int).push(sv[i as int])
                    =~= sv.subrange(start as int, i as int + 1));
                assert(closed.push(sv.subrange(start as int, i as int)).update(
                    closed.len() as int,
                    sv.subrange(start as int, i as int + 1),
                ) =~= closed.push(sv.subrange(start as int, i as int + 1)));
            }
        }
        i = i + 1;
    }
    let seg = s.substring_char(start, n);
    push_segment(&mut out, seg, seg_index, rooted);
    proof {
        assert(sv.subrange(0, n as int) =~= sv);
        lemma_segments_components_push(closed, seg@, rooted);
        let sc = segments_components(closed, rooted);
        match segment_component(seg@, closed.len() as int, rooted) {
            Some(c) => {
                assert((prefix + sc).push(c) =~= prefix + sc.push(c));
            },
            None => {},
        }
        if !rooted {
            assert(prefix + segments_components(segments(sv), rooted) =~= segments_components(segments(sv), rooted));
        }
    }
    out
}

/// The path obtained by moving a path under a new directory: the part of `path` that follows
/// the first component named like the stem of `relative` is attached to `relative`.
pub open spec fn is_first_named(cs: Seq<ComponentView>, name: Seq<char>, k: int) -> bool {
    &&& 0 <= k < cs.len()
    &&& cs[k] == ComponentView::Normal(name)
    &&& forall|j: int| 0 <= j < k ==> cs[j] != ComponentView::Normal(name)
}

pub open spec fn spec_update_path_from_relative(path: Seq<char>, relative: Seq<char>) -> Option<Seq<char>> {
    match file_stem(relative) {
        None => None,
        Some(stem) => {
            let cs = components(path);
            if exists|k: int| is_first_named(cs, stem, k) {
                let k = choose|k: int| is_first_named(cs, stem, k);
                Some(render(components(relative) + cs.subrange(k + 1, cs.len() as int)))
            } else {
                None
            }
        },
    }
}

/// The last character of a string, if any.
fn last_char(s: &str) -> (r: Option<char>)
    ensures
        r == (if s@.len() > 0 { Some(s@.last()) } else { None::<char> }),
{
    let n = s.unicode_len();
    if n == 0 {
        None
    } else {
        Some(s.get_char(n - 1))
    }
}

/// Push `part` onto the path `base`.
fn push_part(base: &mut String, part: &str)
    ensures
        final(base)@ == push_text(old(base)@, part@),
{
    proof { reveal_strlit("/"); }
    let starts_at_root = part.unicode_len() > 0 && part.get_char(0) == '/';
    if starts_at_root {
        *base = String::from_str(part);
    } else {
        let last = last_char(base.as_str());
        match last {
            Some(c) => {
                if c != '/' {
                    base.append("/");
                }
            },
            None => {},
        }
        base.append(part);
    }
}

/// The text of a component.
fn component_str(c: &Component) -> (r: &str)
    ensures
        r@ == component_text(c.view()),
{
    proof {
        reveal_strlit("/");
        reveal_strlit(".");
        reveal_strlit("..");
    }
    match c {
        Component::RootDir => "/",
        Component::CurDir => ".",
        Component::ParentDir => "..",
        Component::Normal(n) => n.as_str(),
    }
}

/// A copy of a component.
fn copy_component(c: &Component) -> (r: Component)
    ensures
        r.view() == c.view(),
{
    match c {
        Component::RootDir => Component::RootDir,
        Component::CurDir => Component::CurDir,
        Component::ParentDir => Component::ParentDir,
        Component::Normal(n) => Component::Normal(n.clone()),
    }
}

/// The path made of the given components.
pub fn render_components(cs: &Vec<Component>) -> (r: String)
    ensures
        r@ == render(components_view(cs@)),
{
    let mut out = String::new();
    let mut i: usize = 0;
    proof {
        assert(components_view(cs@).subrange(0, 0) =~= Seq::<ComponentView>::empty());
    }
    while i < cs.len()
        invariant
            i <= cs.len(),
            out@ == render(components_view(cs@).subrange(0, i as int)),
        decreases cs.len() - i,
    {
        push_part(&mut out, component_str(&cs[i]));
        proof {
            let v = components_view(cs@);
            assert(v.subrange(0, i as int + 1).drop_last() =~= v.subrange(0, i as int));
            assert(v.subrange(0, i as int + 1).last() == cs@[i as int].view());
        }
        i = i + 1;
    }
    proof {
        assert(components_view(cs@).subrange(0, cs.len() as int) =~= components_view(cs@));
    }
    out
}

/// Join the relative `part` onto the path `base`.
pub fn join(base: &str, part: &str) -> (r: String)
    ensures
        r@ == push_text(base@, part@),
{
    let mut out = String::from_str(base);
    push_part(&mut out, part);
    out
}

/// The stem of a file name.
pub fn stem_of(name: &str) -> (r: &str)
    ensures
        r@ == name_stem(name@),
{
    let n = name.unicode_len();
    let mut i: usize = n;
    proof {
        assert(name@.subrange(0, n as int) =~= name@);
    }
    while i > 0
        invariant
            i <= n,
            n == name@.len(),
            last_dot(name@) == last_dot(name@.subrange(0, i as int)),
        decreases i,
    {
        proof {
            let t = name@.subrange(0, i as int);
            assert(t.drop_last() =~= name@.subrange(0, i as int - 1));
        }
        if name.get_char(i - 1) == '.' {
            if i - 1 > 0 {
                return name.substring_char(0, i - 1);
            } else {
                return name;
            }
        }
        i = i - 1;
    }
    proof {
        assert(name@.subrange(0, 0).len() == 0);
    }
    name
}

/// The stem of the last component of a path, if that component is a name.
pub fn file_stem_of(s: &str) -> (r: Option<String>)
    ensures
        match r {
            Some(st) => file_stem(s@) == Some(st@),
            None => file_stem(s@) is None,
        },
{
    let cs = components_of(s);
    let n = cs.len();
    if n == 0 {
        return None;
    }
    match &cs[n - 1] {
        Component::Normal(name) => {
            proof {
                assert(components_view(cs@).last() == cs@[n - 1].view());
            }
            Some(String::from_str(stem_of(name.as_str())))
        },
        _ => {
            proof {
                assert(components_view(cs@).last() == cs@[n - 1].view());
            }
            None
        },
    }
}

/// Updates the path from the given new relative path.
///
/// E.g. if `path` is "/foo/bar/baz/qux" and `relative` is "/flim/baz" the resulting path will
/// be "/flim/baz/qux". Returns `None` if no component of `path` is named like the stem of
/// `relative`.
pub fn update_path_from_relative(path: &str, relative: &str) -> (r: Option<String>)
    ensures
        match r {
            Some(p) => spec_update_path_from_relative(path@, relative@) == Some(p@),
            None => spec_update_path_from_relative(path@, relative@) is None,
        },
{
    let stem = match file_stem_of(relative) {
        None => return None,
        Some(st) => st,
    };
    let pcs = components_of(path);
    let ghost pv = components_view(pcs@);
    let mut k: usize = 0;
    while k < pcs.len()
        invariant
            k <= pcs.len(),
            pv == components_view(pcs@),
            pv == components(path@),
            file_stem(relative@) == Some(stem@),
            forall|j: int| 0 <= j < k ==> pv[j] != ComponentView::Normal(stem@),
        decreases pcs.len() - k,
    {
        let found = match &pcs[k] {
            Component::Normal(n) => crate::text::str_eq(n.as_str(), stem.as_str()),
            _ => false,
        };
        proof {
            assert(pv[k as int] == pcs@[k as int].view());
        }
        if found {
            let mut out = components_of(relative);
            let ghost rv = components_view(out@);
            let mut j: usize = k + 1;
            proof {
                assert(is_first_named(pv, stem@, k as int));
                assert(forall|k2: int| is_first_named(pv, stem@, k2) ==> k2 == k);
                assert(rv + pv.subrange(k as int + 1, k as int + 1) =~= rv);
            }
            while j < pcs.len()
                invariant
                    k < j <= pcs.len(),
                    pv == components_view(pcs@),
                    components_view(out@) == rv + pv.subrange(k as int + 1, j as int),
                decreases pcs.len() - j,
            {
                let ghost before = out@;
                let c = copy_component(&pcs[j]);
                out.push(c);
                proof {
                    assert(out@ =~= before.push(c));
                    assert(components_view(out@) =~= components_view(before).push(c.view()));
                    assert(pv[j as int] == pcs@[j as int].view());
                    assert(components_view(out@) =~= rv + pv.subrange(k as int + 1, j as int + 1));
                }
                j = j + 1;
            }
            let r = render_components(&out);
            proof {
                assert(components_view(out@) == rv + pv.subrange(k as int + 1, pv.len() as int));
                assert(pv == components(path@));
                assert(rv == components(relative@));
            }
            return Some(r);
        }
        k = k + 1;
    }
    proof {
        assert(forall|k2: int| !is_first_named(pv, stem@, k2));
    }
    None
}

} // verus!
