use vstd::prelude::*;

use crate::errors::AppError;
use crate::errors::ErrorKind;
use crate::filename::FileNamePattern;
use crate::filename::glob_match;
use crate::filename::has_wildcard_char;
use crate::filename::str_eq;
use crate::split::lemma_nonempty_push;
use crate::split::nonempty;
use crate::split::split_components;
use crate::split::split_str;

verus! {

/// The two path separator characters.
pub open spec fn path_seps() -> Seq<char> {
    seq!['/', '\\']
}

/// The pattern's non-empty components, split at path separators.
pub open spec fn pattern_components(p: Seq<char>) -> Seq<Seq<char>> {
    nonempty(split_components(p, path_seps()))
}

/// The any-depth component.
pub open spec fn anydepth_component() -> Seq<char> {
    seq!['*', '*']
}

/// Whether a pattern compiles: it is not empty, no component is `.` or
/// `..`, and `**` is neither the first nor the last component.
pub open spec fn compile_ok(p: Seq<char>) -> bool {
    let ne = pattern_components(p);
    &&& p.len() > 0
    &&& forall|i: int| 0 <= i < ne.len() ==> ne[i] != seq!['.'] && ne[i] != seq!['.', '.']
    &&& (ne.len() > 0 ==> ne[0] != anydepth_component() && ne[ne.len() - 1]
        != anydepth_component())
}

/// The node one component compiles to.
pub open spec fn compiled_node(c: Seq<char>, must_be_dir: bool) -> MatcherNode {
    if c == anydepth_component() {
        MatcherNode::AnyDepth
    } else if has_wildcard_char(c) {
        MatcherNode::Wildcard { pattern: c, must_be_dir }
    } else {
        MatcherNode::Exact { name: c, must_be_dir }
    }
}

/// The chain a pattern compiles to: one node per non-empty component,
/// where every component but the last must match a directory.
pub open spec fn compiled_chain(p: Seq<char>) -> Seq<MatcherNode> {
    let ne = pattern_components(p);
    ne.map(|i: int, c: Seq<char>| compiled_node(c, i < ne.len() - 1))
}

/// Verdict of matching one path component against a matcher node.
#[derive(Debug, PartialEq, Eq, Structural, Clone, Copy)]
pub enum PathMatchingState {
    /// the path component was rejected
    Rejected,
    /// the path component was accepted
    Accepted,
    /// the path matching was completed
    Completed,
}

/// One node of a matcher chain.
pub enum PathMatcher {
    ExactNameMatcher { name: String, must_be_dir: bool, next: Option<Box<PathMatcher>> },
    FileNamePatternMatcher {
        pattern: FileNamePattern,
        must_be_dir: bool,
        next: Option<Box<PathMatcher>>,
    },
    AnyDirectoriesMatcher { next: Box<PathMatcher> },
}

/// Abstract shape of one matcher node.
pub enum MatcherNode {
    Exact { name: Seq<char>, must_be_dir: bool },
    Wildcard { pattern: Seq<char>, must_be_dir: bool },
    AnyDepth,
}

/// The shape of the chain that starts at one node.
pub open spec fn node_chain_view(node: PathMatcher) -> Seq<MatcherNode>
    decreases node,
{
    match node {
        PathMatcher::ExactNameMatcher { name, must_be_dir, next } => seq![
            MatcherNode::Exact { name: name@, must_be_dir },
        ] + match next {
            None => Seq::empty(),
            Some(b) => node_chain_view(*b),
        },
        PathMatcher::FileNamePatternMatcher { pattern, must_be_dir, next } => seq![
            MatcherNode::Wildcard { pattern: pattern@, must_be_dir },
        ] + match next {
            None => Seq::empty(),
            Some(b) => node_chain_view(*b),
        },
        PathMatcher::AnyDirectoriesMatcher { next } => seq![MatcherNode::AnyDepth]
            + node_chain_view(*next),
    }
}


/// Whether a non-any-depth node accepts one component name.
pub open spec fn node_accepts(n: MatcherNode, name: Seq<char>, is_dir: bool) -> bool {
    match n {
        MatcherNode::Exact { name: m_name, must_be_dir } => (!must_be_dir || is_dir) && name
            == m_name,
        MatcherNode::Wildcard { pattern, must_be_dir } => (!must_be_dir || is_dir) && glob_match(
            name,
            pattern,
        ),
        MatcherNode::AnyDepth => false,
    }
}

/// What matching one component against a node yields: the verdict, and the
/// node the walk continues with.
pub open spec fn spec_match(m: PathMatcher, name: Seq<char>, is_dir: bool) -> (
    PathMatchingState,
    Option<PathMatcher>,
)
    decreases m,
{
    match m {
        PathMatcher::ExactNameMatcher { name: m_name, must_be_dir, next } => {
            if (!must_be_dir || is_dir) && name == m_name@ {
                match next {
                    None => (PathMatchingState::Completed, None::<PathMatcher>),
                    Some(b) => (PathMatchingState::Accepted, Some(*b)),
                }
            } else {
                (PathMatchingState::Rejected, None::<PathMatcher>)
            }
        },
        PathMatcher::FileNamePatternMatcher { pattern, must_be_dir, next } => {
            if (!must_be_dir || is_dir) && glob_match(name, pattern@) {
                match next {
                    None => (PathMatchingState::Completed, None::<PathMatcher>),
                    Some(b) => (PathMatchingState::Accepted, Some(*b)),
                }
            } else {
                (PathMatchingState::Rejected, None::<PathMatcher>)
            }
        },
        PathMatcher::AnyDirectoriesMatcher { next } => {
            let inner = spec_match(*next, name, is_dir);
            if inner.0 is Rejected {
                if is_dir {
                    (PathMatchingState::Accepted, Some(m))
                } else {
                    (PathMatchingState::Rejected, None::<PathMatcher>)
                }
            } else {
                inner
            }
        },
    }
}

/// Relates an exec continuation (a borrow) to the spec one (a value).
pub open spec fn continuation_is(r: Option<&PathMatcher>, s: Option<PathMatcher>) -> bool {
    match (r, s) {
        (None, None) => true,
        (Some(a), Some(b)) => *a == b,
        _ => false,
    }
}

impl PathMatcher {
    /// Matches one path component.  Returns the verdict and, on acceptance,
    /// the node to match the component's children against.
    pub fn matches<'a>(&'a self, name: &str, is_dir: bool) -> (r: (
        PathMatchingState,
        Option<&'a PathMatcher>,
    ))
        ensures
            r.0 == spec_match(*self, name@, is_dir).0,
            continuation_is(r.1, spec_match(*self, name@, is_dir).1),
        decreases *self,
    {
        match self {
            PathMatcher::ExactNameMatcher { name: m_name, must_be_dir, next } => {
                if (!*must_be_dir || is_dir) && str_eq(name, m_name.as_str()) {
                    match next {
                        None => (PathMatchingState::Completed, None),
                        Some(m) => (PathMatchingState::Accepted, Some(&**m)),
                    }
                } else {
                    (PathMatchingState::Rejected, None)
                }
            },
            PathMatcher::FileNamePatternMatcher { pattern, must_be_dir, next } => {
                if (!*must_be_dir || is_dir) && pattern.matches(name) {
                    match next {
                        None => (PathMatchingState::Completed, None),
                        Some(m) => (PathMatchingState::Accepted, Some(&**m)),
                    }
                } else {
                    (PathMatchingState::Rejected, None)
                }
            },
            PathMatcher::AnyDirectoriesMatcher { next } => {
                let (next_state, next_matcher) = next.matches(name, is_dir);
                match next_state {
                    PathMatchingState::Rejected => {
                        if is_dir {
                            (PathMatchingState::Accepted, Some(self))
                        } else {
                            (PathMatchingState::Rejected, None)
                        }
                    },
                    _ => (next_state, next_matcher),
                }
            },
        }
    }

    /// The node after this one in the chain, if any.
    pub fn next_matcher(&self) -> (r: Option<&PathMatcher>)
        ensures
            continuation_is(
                r,
                match *self {
                    PathMatcher::ExactNameMatcher { next, .. } => match next {
                        None => None::<PathMatcher>,
                        Some(b) => Some(*b),
                    },
                    PathMatcher::FileNamePatternMatcher { next, .. } => match next {
                        None => None::<PathMatcher>,
                        Some(b) => Some(*b),
                    },
                    PathMatcher::AnyDirectoriesMatcher { next } => Some(*next),
                },
            ),
    {
        match self {
            PathMatcher::ExactNameMatcher { name: _, must_be_dir: _, next } => match next {
                None => None,
                Some(m) => Some(&**m),
            },
            PathMatcher::FileNamePatternMatcher { pattern: _, must_be_dir: _, next } => match next {
                None => None,
                Some(m) => Some(&**m),
            },
            PathMatcher::AnyDirectoriesMatcher { next } => Some(&**next),
        }
    }
}

/// The shape of a chain held as an optional boxed head node.
pub open spec fn boxed_chain_view(next: Option<Box<PathMatcher>>) -> Seq<MatcherNode> {
    match next {
        None => Seq::empty(),
        Some(b) => node_chain_view(*b),
    }
}

/// A matcher that matches the root
pub struct RootPathMatcher {
    next: Option<Box<PathMatcher>>,
}

impl RootPathMatcher {
    /// The shape of the chain under the root.
    pub closed spec fn view(&self) -> Seq<MatcherNode> {
        boxed_chain_view(self.next)
    }

    /// The first real node of the chain, as a spec value.
    pub closed spec fn spec_first(&self) -> Option<PathMatcher> {
        match self.next {
            None => None,
            Some(b) => Some(*b),
        }
    }

    /// Matches the root itself: an empty chain denotes the root and
    /// completes; otherwise the walk continues with the first node.
    pub fn matches_root(&self) -> (r: (PathMatchingState, Option<&PathMatcher>))
        ensures
            self@.len() == 0 ==> r.0 == PathMatchingState::Completed && r.1 is None,
            self@.len() > 0 ==> r.0 == PathMatchingState::Accepted && continuation_is(
                r.1,
                self.spec_first(),
            ),
            self@.len() > 0 ==> self.spec_first() is Some && node_chain_view(
                self.spec_first()->Some_0,
            ) == self@,
    {
        match &self.next {
            None => (PathMatchingState::Completed, None),
            Some(m) => (PathMatchingState::Accepted, Some(&**m)),
        }
    }

    /// The first node of the chain, if any.
    pub fn next_matcher(&self) -> (r: Option<&PathMatcher>)
        ensures
            continuation_is(r, self.spec_first()),
    {
        match &self.next {
            None => None,
            Some(m) => Some(&**m),
        }
    }
}

/// The component at index `k` stands in the pattern's non-empty components
/// right after those of the components before `k`.
proof fn lemma_component_position(cs: Seq<Seq<char>>, k: int)
    requires
        0 <= k < cs.len(),
        cs[k].len() > 0,
    ensures
        nonempty(cs) == nonempty(cs.take(k)).push(cs[k]) + nonempty(cs.skip(k + 1)),
        nonempty(cs)[nonempty(cs.take(k)).len() as int] == cs[k],
{
    assert(cs =~= cs.take(k + 1) + cs.skip(k + 1));
    crate::split::lemma_nonempty_concat(cs.take(k + 1), cs.skip(k + 1));
    assert(cs.take(k + 1) =~= cs.take(k).push(cs[k]));
    lemma_nonempty_push(cs.take(k), cs[k]);
    assert(nonempty(cs) =~= nonempty(cs.take(k)).push(cs[k]) + nonempty(cs.skip(k + 1)));
    let n = nonempty(cs.take(k)).len() as int;
    assert((nonempty(cs.take(k)).push(cs[k]) + nonempty(cs.skip(k + 1)))[n] == cs[k]);
}

/// The views of the literals the compiler compares components against.
proof fn lemma_special_components()
    ensures
        "."@ == seq!['.'],
        ".."@ == seq!['.', '.'],
        "**"@ == anydepth_component(),
{
    reveal_strlit(".");
    reveal_strlit("..");
    reveal_strlit("**");
    assert("."@ =~= seq!['.']);
    assert(".."@ =~= seq!['.', '.']);
    assert("**"@ =~= seq!['*', '*']);
}

/// Creates linked matchers that match the given path pattern.
///
/// * `pattern` - path pattern.
///     Each component can contain wildcard characters ('*' and '?').
///     `**` matches zero or more any directories.
pub fn create_path_pattern_matcher(pattern: &str) -> (r: Result<RootPathMatcher, AppError>)
    ensures
        r is Ok <==> compile_ok(pattern@),
        r is Ok ==> r->Ok_0@ == compiled_chain(pattern@),
        r is Err ==> r->Err_0.kind == ErrorKind::InvalidPath,
{
    proof {
        lemma_special_components();
    }
    if pattern.unicode_len() == 0 {
        return Err(AppError::new(ErrorKind::InvalidPath, "path is empty."));
    }
    let seps: [char; 2] = ['/', '\\'];
    proof {
        assert(seps@ =~= path_seps());
    }
    let comps = split_str(pattern, &seps);
    let ghost cs = comps.deep_view();

    let mut ne: Vec<String> = Vec::new();
    let cn = comps.len();
    proof {
        assert(cs.take(0) =~= Seq::<Seq<char>>::empty());
        assert(ne.deep_view() =~= nonempty(cs.take(0)));
    }
    for k in 0..cn
        invariant
            cn == comps@.len(),
            cs == comps.deep_view(),
            cs == split_components(pattern@, path_seps()),
            ne.deep_view() =~= nonempty(cs.take(k as int)),
            forall|i: int|
                0 <= i < ne.deep_view().len() ==> ne.deep_view()[i] != seq!['.']
                    && ne.deep_view()[i] != seq!['.', '.'],
    {
        let comp_len = comps[k].unicode_len();
        proof {
            lemma_special_components();
            assert(cs[k as int] == comps@[k as int]@);
        }
        if comp_len > 0 {
            if str_eq(comps[k].as_str(), ".") || str_eq(comps[k].as_str(), "..") {
                proof {
                    lemma_component_position(cs, k as int);
                    let i = nonempty(cs.take(k as int)).len() as int;
                    assert(pattern_components(pattern@)[i] == cs[k as int]);
                    assert(!compile_ok(pattern@));
                }
                return Err(
                    AppError::new(ErrorKind::InvalidPath, "this component is not allowed here."),
                );
            }
            let part = comps[k].clone();
            ne.push(part);
        }
        proof {
            assert(cs.take(k + 1) =~= cs.take(k as int).push(cs[k as int]));
            lemma_nonempty_push(cs.take(k as int), cs[k as int]);
            assert(ne.deep_view() =~= nonempty(cs.take(k + 1)));
        }
    }
    proof {
        assert(cs.take(cn as int) =~= cs);
        assert(ne.deep_view() =~= pattern_components(pattern@));
    }

    let len = ne.len();
    if len > 0 {
        if str_eq(ne[0].as_str(), "**") {
            proof {
                assert(pattern_components(pattern@)[0] == anydepth_component());
            }
            return Err(
                AppError::new(ErrorKind::InvalidPath, "the path starting with \"**\" is not allowed."),
            );
        }
        if str_eq(ne[len - 1].as_str(), "**") {
            proof {
                assert(pattern_components(pattern@)[len - 1] == anydepth_component());
            }
            return Err(
                AppError::new(ErrorKind::InvalidPath, "the path ending with \"**\" is not allowed."),
            );
        }
    }
    proof {
        assert(compile_ok(pattern@));
    }

    let ghost chain = compiled_chain(pattern@);
    let mut acc: Option<Box<PathMatcher>> = None;
    let mut i = len;
    proof {
        assert(chain.len() == len);
        assert(boxed_chain_view(acc) =~= chain.skip(len as int));
    }
    while i > 0
        invariant
            i <= len,
            len == ne.deep_view().len(),
            len == ne@.len(),
            ne.deep_view() == pattern_components(pattern@),
            chain == compiled_chain(pattern@),
            chain.len() == len,
            len > 0 ==> ne.deep_view()[len - 1] != anydepth_component(),
            boxed_chain_view(acc) =~= chain.skip(i as int),
        decreases i,
    {
        i = i - 1;
        let must_be_dir = i + 1 < len;
        proof {
            lemma_special_components();
            assert(cs_node_at(pattern@, i as int) == compiled_node(
                ne.deep_view()[i as int],
                i < len - 1,
            ));
        }
        if str_eq(ne[i].as_str(), "**") {
            match acc {
                Some(b) => {
                    acc = Some(Box::new(PathMatcher::AnyDirectoriesMatcher { next: b }));
                },
                None => {
                    proof {
                        assert(chain.skip(i + 1).len() > 0);
                        assert(false);
                    }
                    return Err(AppError::new(ErrorKind::InvalidPath, "malformed pattern."));
                },
            }
        } else if FileNamePattern::has_wildcard(ne[i].as_str()) {
            let fp = FileNamePattern::new(ne[i].as_str());
            acc = Some(
                Box::new(PathMatcher::FileNamePatternMatcher { pattern: fp, must_be_dir, next: acc }),
            );
        } else {
            let comp_name = ne[i].clone();
            acc = Some(
                Box::new(PathMatcher::ExactNameMatcher { name: comp_name, must_be_dir, next: acc }),
            );
        }
        proof {
            assert(chain.skip(i as int) =~= seq![chain[i as int]] + chain.skip(i + 1));
            assert(boxed_chain_view(acc) =~= chain.skip(i as int));
        }
    }
    proof {
        assert(chain.skip(0) =~= chain);
    }
    Ok(RootPathMatcher { next: acc })
}

/// The compiled node at one position of the chain.
pub open spec fn cs_node_at(p: Seq<char>, i: int) -> MatcherNode {
    compiled_chain(p)[i]
}

/// The verdict of feeding a whole descent, one (name, is-directory) step
/// per level, into a chain: `Completed` exactly when the chain completes
/// on the final step.
pub open spec fn walk_chain(m: PathMatcher, names: Seq<(Seq<char>, bool)>) -> PathMatchingState
    decreases names.len(),
{
    if names.len() == 0 {
        PathMatchingState::Accepted
    } else {
        let r = spec_match(m, names[0].0, names[0].1);
        if r.0 is Rejected {
            PathMatchingState::Rejected
        } else if r.0 is Completed {
            if names.len() == 1 {
                PathMatchingState::Completed
            } else {
                PathMatchingState::Rejected
            }
        } else {
            walk_chain(r.1->Some_0, names.skip(1))
        }
    }
}

/// An accepting match always hands out a continuation node.
pub proof fn lemma_accepted_has_continuation(m: PathMatcher, name: Seq<char>, is_dir: bool)
    ensures
        spec_match(m, name, is_dir).0 is Accepted ==> spec_match(m, name, is_dir).1 is Some,
        spec_match(m, name, is_dir).0 is Completed ==> spec_match(m, name, is_dir).1 is None,
        spec_match(m, name, is_dir).0 is Rejected ==> spec_match(m, name, is_dir).1 is None,
    decreases m,
{
    match m {
        PathMatcher::AnyDirectoriesMatcher { next } => {
            lemma_accepted_has_continuation(*next, name, is_dir);
        },
        _ => {},
    }
}

/// For a chain without any-depth nodes, a descent completes exactly when
/// it is as long as the chain and every node accepts its component: the
/// verdict agrees with the shell-glob reference, component by component.
pub proof fn lemma_walk_without_any_depth(m: PathMatcher, names: Seq<(Seq<char>, bool)>)
    requires
        forall|i: int| 0 <= i < node_chain_view(m).len() ==> !(node_chain_view(m)[i] is AnyDepth),
        names.len() > 0,
    ensures
        walk_chain(m, names) == PathMatchingState::Completed <==> (names.len()
            == node_chain_view(m).len() && forall|i: int|
            0 <= i < names.len() ==> node_accepts(node_chain_view(m)[i], names[i].0, names[i].1)),
    decreases names.len(), 1int,
{
    let view = node_chain_view(m);
    let head_accepts = node_accepts(view[0], names[0].0, names[0].1);
    let r = spec_match(m, names[0].0, names[0].1);
    match m {
        PathMatcher::AnyDirectoriesMatcher { next } => {
            assert(view[0] is AnyDepth);
        },
        PathMatcher::ExactNameMatcher { name: m_name, must_be_dir, next } => {
            lemma_walk_step(m, names, view, head_accepts, r, next);
        },
        PathMatcher::FileNamePatternMatcher { pattern, must_be_dir, next } => {
            lemma_walk_step(m, names, view, head_accepts, r, next);
        },
    }
}

/// Shared induction step of `lemma_walk_without_any_depth` for the two
/// single-component head nodes.
proof fn lemma_walk_step(
    m: PathMatcher,
    names: Seq<(Seq<char>, bool)>,
    view: Seq<MatcherNode>,
    head_accepts: bool,
    r: (PathMatchingState, Option<PathMatcher>),
    next: Option<Box<PathMatcher>>,
)
    requires
        view == node_chain_view(m),
        forall|i: int| 0 <= i < view.len() ==> !(view[i] is AnyDepth),
        names.len() > 0,
        head_accepts == node_accepts(view[0], names[0].0, names[0].1),
        r == spec_match(m, names[0].0, names[0].1),
        !head_accepts ==> r.0 is Rejected,
        head_accepts && next is None ==> r == (
            PathMatchingState::Completed,
            None::<PathMatcher>,
        ),
        head_accepts && next is Some ==> r == (
            PathMatchingState::Accepted,
            Some(*next->Some_0),
        ),
        view =~= seq![view[0]] + match next {
            None => Seq::<MatcherNode>::empty(),
            Some(b) => node_chain_view(*b),
        },
    ensures
        walk_chain(m, names) == PathMatchingState::Completed <==> (names.len() == view.len()
            && forall|i: int|
            0 <= i < names.len() ==> node_accepts(view[i], names[i].0, names[i].1)),
    decreases names.len(), 0int,
{
    if !head_accepts {
        assert(walk_chain(m, names) == PathMatchingState::Rejected);
        assert(!node_accepts(view[0], names[0].0, names[0].1));
    } else {
        match next {
            None => {
                assert(view.len() == 1);
                if names.len() == 1 {
                    assert(walk_chain(m, names) == PathMatchingState::Completed);
                    assert(forall|i: int|
                        0 <= i < names.len() ==> node_accepts(view[i], names[i].0, names[i].1));
                } else {
                    assert(walk_chain(m, names) == PathMatchingState::Rejected);
                }
            },
            Some(b) => {
                let sub = node_chain_view(*b);
                let rest = names.skip(1);
                assert(view.len() == 1 + sub.len());
                assert(forall|i: int| 0 <= i < sub.len() ==> view[i + 1] == sub[i]);
                if names.len() == 1 {
                    assert(rest.len() == 0);
                    assert(walk_chain(*b, rest) == PathMatchingState::Accepted);
                    assert(walk_chain(m, names) != PathMatchingState::Completed);
                    assert(names.len() != view.len());
                } else {
                    assert(forall|i: int| 0 <= i < sub.len() ==> !(sub[i] is AnyDepth)) by {
                        assert(forall|i: int| 0 <= i < sub.len() ==> sub[i] == view[i + 1]);
                    }
                    lemma_walk_without_any_depth(*b, rest);
                    assert(walk_chain(m, names) == walk_chain(*b, rest));
                    if walk_chain(m, names) == PathMatchingState::Completed {
                        assert(rest.len() == sub.len());
                        assert(names.len() == view.len());
                        assert forall|i: int| 0 <= i < names.len() implies node_accepts(
                            view[i],
                            names[i].0,
                            names[i].1,
                        ) by {
                            if i > 0 {
                                assert(rest[i - 1] == names[i]);
                                assert(view[i] == sub[i - 1]);
                                assert(node_accepts(sub[i - 1], rest[i - 1].0, rest[i - 1].1));
                            }
                        }
                    } else {
                        if names.len() == view.len() && forall|i: int|
                            0 <= i < names.len() ==> node_accepts(
                                view[i],
                                names[i].0,
                                names[i].1,
                            ) {
                            assert forall|i: int| 0 <= i < rest.len() implies node_accepts(
                                sub[i],
                                rest[i].0,
                                rest[i].1,
                            ) by {
                                assert(rest[i] == names[i + 1]);
                                assert(sub[i] == view[i + 1]);
                            }
                            assert(walk_chain(*b, rest) == PathMatchingState::Completed);
                            assert(false);
                        }
                    }
                }
            },
        }
    }
}

/// What matching one component against a chain shape yields: the verdict
/// and the shape of the chain the walk continues with.
pub open spec fn spec_match_nodes(chain: Seq<MatcherNode>, name: Seq<char>, is_dir: bool) -> (
    PathMatchingState,
    Seq<MatcherNode>,
)
    decreases chain.len(),
{
    if chain.len() == 0 {
        (PathMatchingState::Completed, Seq::<MatcherNode>::empty())
    } else {
        match chain[0] {
            MatcherNode::AnyDepth => {
                let inner = spec_match_nodes(chain.skip(1), name, is_dir);
                if inner.0 is Rejected {
                    if is_dir {
                        (PathMatchingState::Accepted, chain)
                    } else {
                        (PathMatchingState::Rejected, Seq::<MatcherNode>::empty())
                    }
                } else {
                    inner
                }
            },
            _ => {
                if node_accepts(chain[0], name, is_dir) {
                    if chain.len() == 1 {
                        (PathMatchingState::Completed, Seq::<MatcherNode>::empty())
                    } else {
                        (PathMatchingState::Accepted, chain.skip(1))
                    }
                } else {
                    (PathMatchingState::Rejected, Seq::<MatcherNode>::empty())
                }
            },
        }
    }
}

/// The continuation a match hands out, as a chain shape.
pub open spec fn continuation_chain(c: Option<PathMatcher>) -> Seq<MatcherNode> {
    match c {
        None => Seq::<MatcherNode>::empty(),
        Some(m) => node_chain_view(m),
    }
}

/// A matcher node and its chain shape agree on every component: the
/// verdicts are the same and the continuations have the same shape.
pub proof fn lemma_match_agrees(m: PathMatcher, name: Seq<char>, is_dir: bool)
    ensures
        spec_match(m, name, is_dir).0 == spec_match_nodes(node_chain_view(m), name, is_dir).0,
        continuation_chain(spec_match(m, name, is_dir).1) == spec_match_nodes(
            node_chain_view(m),
            name,
            is_dir,
        ).1,
    decreases m,
{
    let view = node_chain_view(m);
    match m {
        PathMatcher::ExactNameMatcher { name: m_name, must_be_dir, next } => {
            assert(view[0] == MatcherNode::Exact { name: m_name@, must_be_dir });
            match next {
                None => {
                    assert(view.len() == 1);
                },
                Some(b) => {
                    assert(view.skip(1) =~= node_chain_view(*b));
                },
            }
        },
        PathMatcher::FileNamePatternMatcher { pattern, must_be_dir, next } => {
            assert(view[0] == MatcherNode::Wildcard { pattern: pattern@, must_be_dir });
            match next {
                None => {
                    assert(view.len() == 1);
                },
                Some(b) => {
                    assert(view.skip(1) =~= node_chain_view(*b));
                },
            }
        },
        PathMatcher::AnyDirectoriesMatcher { next } => {
            assert(view[0] is AnyDepth);
            assert(view.skip(1) =~= node_chain_view(*next));
            lemma_match_agrees(*next, name, is_dir);
        },
    }
}

/// An any-depth node matches zero levels: where its inner node does not
/// reject a component, the any-depth node behaves exactly as the inner
/// node does.
pub proof fn lemma_any_depth_zero_levels(next: Box<PathMatcher>, name: Seq<char>, is_dir: bool)
    requires
        !(spec_match(*next, name, is_dir).0 is Rejected),
    ensures
        spec_match(PathMatcher::AnyDirectoriesMatcher { next }, name, is_dir) == spec_match(
            *next,
            name,
            is_dir,
        ),
{
}

/// An any-depth node absorbs a directory level its inner node rejects,
/// re-offering itself unchanged as the continuation.
pub proof fn lemma_any_depth_absorbs_directory(
    next: Box<PathMatcher>,
    name: Seq<char>,
    is_dir: bool,
)
    requires
        spec_match(*next, name, is_dir).0 is Rejected,
        is_dir,
    ensures
        spec_match(PathMatcher::AnyDirectoriesMatcher { next }, name, is_dir) == (
            PathMatchingState::Accepted,
            Some(PathMatcher::AnyDirectoriesMatcher { next }),
        ),
{
}

/// An any-depth node matches any number of directory levels: a descent
/// whose first `k` steps are directories the inner node rejects completes
/// whenever the remaining descent completes.
pub proof fn lemma_any_depth_absorbs_levels(
    next: Box<PathMatcher>,
    names: Seq<(Seq<char>, bool)>,
    k: int,
)
    requires
        0 <= k <= names.len(),
        forall|i: int| 0 <= i < k ==> names[i].1,
        forall|i: int| 0 <= i < k ==> spec_match(*next, names[i].0, names[i].1).0 is Rejected,
        walk_chain(PathMatcher::AnyDirectoriesMatcher { next }, names.skip(k))
            == PathMatchingState::Completed,
    ensures
        walk_chain(PathMatcher::AnyDirectoriesMatcher { next }, names)
            == PathMatchingState::Completed,
    decreases k,
{
    let m = PathMatcher::AnyDirectoriesMatcher { next };
    if k == 0 {
        assert(names.skip(0) =~= names);
    } else {
        assert(names.skip(k).len() > 0);
        assert(names.len() > 0);
        assert(spec_match(m, names[0].0, names[0].1) == (PathMatchingState::Accepted, Some(m)));
        let rest = names.skip(1);
        assert(rest.skip(k - 1) =~= names.skip(k));
        assert(forall|i: int| 0 <= i < k - 1 ==> rest[i] == names[i + 1]);
        lemma_any_depth_absorbs_levels(next, rest, k - 1);
        assert(walk_chain(m, names) == walk_chain(m, rest));
    }
}

} // verus!
