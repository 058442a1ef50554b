//! Whether a target lies inside the working directory once symbolic links are followed.
//! The search asks its driver about the file system, one thing at a time.

use crate::guard::same_bytes;
use crate::limits::MAX_HOPS;
use vstd::prelude::*;

verus! {

/// A path in its components: whether it starts at the root, and the names after that. A
/// `.` stands at most in front of a path that does not start at the root.
pub struct Place {
    pub absolute: bool,
    pub names: Vec<Vec<u8>>,
}

/// The view of a [`Place`].
#[verifier::ext_equal]
pub struct PlaceView {
    pub absolute: bool,
    pub names: Seq<Seq<u8>>,
}

/// The view of names.
pub open spec fn names_view(names: Seq<Vec<u8>>) -> Seq<Seq<u8>> {
    names.map_values(|n: Vec<u8>| n@)
}

impl DeepView for Place {
    type V = PlaceView;

    open spec fn deep_view(&self) -> PlaceView {
        PlaceView { absolute: self.absolute, names: names_view(self.names@) }
    }
}

/// The view of a place that may be missing.
pub open spec fn place_view(p: Option<Place>) -> Option<PlaceView> {
    match p {
        Some(q) => Some(q.deep_view()),
        None => None,
    }
}

/// The name is `.`.
pub open spec fn is_dot(name: Seq<u8>) -> bool {
    name.len() == 1 && name[0] == 46
}

/// The names of a path to which others are joined: a `.` in front is dropped.
pub open spec fn undotted(names: Seq<Seq<u8>>) -> Seq<Seq<u8>> {
    if names.len() > 0 && is_dot(names[0]) {
        names.drop_first()
    } else {
        names
    }
}

impl PlaceView {
    /// The directory that holds the place, unless it is the root or nothing at all.
    pub open spec fn parent(self) -> Option<PlaceView> {
        if self.names.len() == 0 {
            None
        } else {
            Some(PlaceView { names: self.names.drop_last(), ..self })
        }
    }

    /// The place that `link` means when it is read in this directory.
    pub open spec fn joined(self, link: PlaceView) -> PlaceView {
        if link.absolute || (!self.absolute && self.names.len() == 0) {
            link
        } else {
            PlaceView { names: self.names + undotted(link.names), ..self }
        }
    }

    /// The place is `base` or lies under it: its components start with those of `base`.
    pub open spec fn within(self, base: PlaceView) -> bool {
        ||| !base.absolute && base.names.len() == 0
        ||| self.absolute == base.absolute && base.names.is_prefix_of(self.names)
    }
}

/// Where the search stands.
#[derive(Clone, Copy)]
pub enum Search {
    /// What is at the place?
    Probing,
    /// The target does not exist; does this directory above it?
    Climbing,
    /// What are the real places of this place and of the base?
    Comparing,
    /// The search is over: the target lies inside, or not.
    Decided(bool),
}

/// The state of a search.
#[verifier::ext_equal]
pub struct ResolverView {
    pub base: PlaceView,
    pub at: PlaceView,
    pub hops: usize,
    pub search: Search,
}

/// What the search asks.
pub enum Query {
    /// What is at the place, without following it if it is a link?
    Probe { place: Place },
    /// Is there anything at the place, links followed?
    Exists { place: Place },
    /// What are the real places of both, links followed?
    Canonical { place: Place, base: Place },
    /// Nothing; the verdict is there.
    Nothing,
}

/// The view of a [`Query`].
pub enum QueryView {
    Probe { place: PlaceView },
    Exists { place: PlaceView },
    Canonical { place: PlaceView, base: PlaceView },
    Nothing,
}

impl DeepView for Query {
    type V = QueryView;

    open spec fn deep_view(&self) -> QueryView {
        match self {
            Query::Probe { place } => QueryView::Probe { place: place.deep_view() },
            Query::Exists { place } => QueryView::Exists { place: place.deep_view() },
            Query::Canonical { place, base } => QueryView::Canonical {
                place: place.deep_view(),
                base: base.deep_view(),
            },
            Query::Nothing => QueryView::Nothing,
        }
    }
}

/// What the driver answers.
pub enum Answer {
    /// A symbolic link, and where it leads if it can be read.
    Link(Option<Place>),
    /// Something that is no symbolic link.
    Plain,
    /// Nothing, or nothing that can be looked at.
    Missing,
    /// Whether there is anything.
    Exists(bool),
    /// The real places of the place and of the base, as far as they can be found.
    Canonical { place: Option<Place>, base: Option<Place> },
}

/// The view of an [`Answer`].
pub enum AnswerView {
    Link(Option<PlaceView>),
    Plain,
    Missing,
    Exists(bool),
    Canonical { place: Option<PlaceView>, base: Option<PlaceView> },
}

impl DeepView for Answer {
    type V = AnswerView;

    open spec fn deep_view(&self) -> AnswerView {
        match self {
            Answer::Link(p) => AnswerView::Link(place_view(*p)),
            Answer::Plain => AnswerView::Plain,
            Answer::Missing => AnswerView::Missing,
            Answer::Exists(b) => AnswerView::Exists(*b),
            Answer::Canonical { place, base } => AnswerView::Canonical {
                place: place_view(*place),
                base: place_view(*base),
            },
        }
    }
}

impl ResolverView {
    /// The start of the search for `target`.
    pub open spec fn start(target: PlaceView, base: PlaceView) -> ResolverView {
        ResolverView { base, at: target, hops: MAX_HOPS, search: Search::Probing }
    }

    /// The search is over.
    pub open spec fn decided(self, inside: bool) -> ResolverView {
        ResolverView { search: Search::Decided(inside), ..self }
    }

    /// The nearest directory above that exists decides; where there is none, the target
    /// does not lie inside.
    pub open spec fn climb(self) -> ResolverView {
        match self.at.parent() {
            Some(a) => ResolverView { at: a, search: Search::Climbing, ..self },
            None => self.decided(false),
        }
    }

    /// A link is followed, unless too many were followed before it.
    pub open spec fn follow(self, link: PlaceView) -> ResolverView {
        if self.hops == 0 {
            self.decided(false)
        } else {
            let dir = match self.at.parent() {
                Some(a) => a,
                None => self.base,
            };
            ResolverView {
                at: dir.joined(link),
                hops: (self.hops - 1) as usize,
                search: Search::Probing,
                ..self
            }
        }
    }

    /// The state after an answer. One that does not answer what was asked changes nothing.
    pub open spec fn next(self, answer: AnswerView) -> ResolverView {
        match (self.search, answer) {
            (Search::Probing, AnswerView::Link(Some(link))) => self.follow(link),
            (Search::Probing, AnswerView::Link(None)) => self.decided(false),
            (Search::Probing, AnswerView::Plain) => ResolverView {
                search: Search::Comparing,
                ..self
            },
            (Search::Probing, AnswerView::Missing) => self.climb(),
            (Search::Climbing, AnswerView::Exists(true)) => ResolverView {
                search: Search::Probing,
                ..self
            },
            (Search::Climbing, AnswerView::Exists(false)) => self.climb(),
            (
                Search::Comparing,
                AnswerView::Canonical { place: Some(p), base: Some(b) },
            ) => self.decided(p.within(b)),
            (Search::Comparing, AnswerView::Canonical { .. }) => self.decided(false),
            _ => self,
        }
    }

    /// What the search asks.
    pub open spec fn query(self) -> QueryView {
        match self.search {
            Search::Probing => QueryView::Probe { place: self.at },
            Search::Climbing => QueryView::Exists { place: self.at },
            Search::Comparing => QueryView::Canonical { place: self.at, base: self.base },
            Search::Decided(_) => QueryView::Nothing,
        }
    }

    /// What the search found, once it is over.
    pub open spec fn verdict(self) -> Option<bool> {
        match self.search {
            Search::Decided(inside) => Some(inside),
            _ => None,
        }
    }
}

/// A search for the real place of a target.
pub struct Resolver {
    base: Place,
    at: Place,
    hops: usize,
    search: Search,
}

impl DeepView for Resolver {
    type V = ResolverView;

    closed spec fn deep_view(&self) -> ResolverView {
        ResolverView {
            base: self.base.deep_view(),
            at: self.at.deep_view(),
            hops: self.hops,
            search: self.search,
        }
    }
}

/// A copy of a name.
fn copied_name(name: &Vec<u8>) -> (r: Vec<u8>)
    ensures
        r@ == name@,
{
    let r = name.clone();
    assert(r@ =~= name@);
    r
}

/// Appends the names from number `from` on.
fn push_names(names: &mut Vec<Vec<u8>>, more: &Vec<Vec<u8>>, from: usize)
    requires
        from <= more@.len(),
    ensures
        names_view(final(names)@) == names_view(old(names)@) + names_view(more@).skip(from as int),
{
    let ghost before = names@;
    let mut i: usize = from;
    while i < more.len()
        invariant
            from <= i <= more@.len(),
            names_view(names@) == names_view(before) + names_view(more@).subrange(
                from as int,
                i as int,
            ),
        decreases more@.len() - i,
    {
        let ghost so_far = names@;
        names.push(copied_name(&more[i]));
        assert(names_view(names@) =~= names_view(so_far).push(more@[i as int]@));
        i = i + 1;
        assert(names_view(more@).subrange(from as int, i as int) =~= names_view(more@).subrange(
            from as int,
            i - 1,
        ).push(more@[i - 1]@));
    }
    assert(names_view(more@).subrange(from as int, i as int) =~= names_view(more@).skip(
        from as int,
    ));
}

impl Place {
    /// A copy of the place.
    pub fn copied(&self) -> (r: Place)
        ensures
            r.deep_view() == self.deep_view(),
    {
        let mut names: Vec<Vec<u8>> = Vec::new();
        push_names(&mut names, &self.names, 0);
        let r = Place { absolute: self.absolute, names };
        assert(r.deep_view() =~= self.deep_view());
        r
    }

    /// The directory that holds the place, unless it is the root or nothing at all.
    pub fn parent(&self) -> (r: Option<Place>)
        ensures
            place_view(r) == self.deep_view().parent(),
    {
        if self.names.len() == 0 {
            return None;
        }
        let mut p = self.copied();
        let _ = p.names.pop();
        assert(p.deep_view() =~= self.deep_view().parent()->0);
        Some(p)
    }

    /// The place that `link` means when it is read in this directory.
    pub fn joined(&self, link: &Place) -> (r: Place)
        ensures
            r.deep_view() == self.deep_view().joined(link.deep_view()),
    {
        if link.absolute || (!self.absolute && self.names.len() == 0) {
            return link.copied();
        }
        let from: usize = if link.names.len() > 0 && link.names[0].len() == 1 && link.names[0][0]
            == 46 {
            1
        } else {
            0
        };
        let mut r = self.copied();
        push_names(&mut r.names, &link.names, from);
        assert(names_view(link.names@).skip(from as int) =~= undotted(names_view(link.names@)));
        r
    }

    /// Whether the place is `base` or lies under it.
    pub fn within(&self, base: &Place) -> (r: bool)
        ensures
            r == self.deep_view().within(base.deep_view()),
    {
        if !base.absolute && base.names.len() == 0 {
            return true;
        }
        if self.absolute != base.absolute || base.names.len() > self.names.len() {
            return false;
        }
        let ghost mine = self.deep_view().names;
        let ghost theirs = base.deep_view().names;
        let mut i: usize = 0;
        while i < base.names.len()
            invariant
                i <= base.names@.len() <= self.names@.len(),
                mine == self.deep_view().names,
                theirs == base.deep_view().names,
                forall|j: int| 0 <= j < i ==> mine[j] == theirs[j],
            decreases base.names@.len() - i,
        {
            if !same_bytes(&self.names[i], &base.names[i]) {
                assert(mine[i as int] != theirs[i as int]);
                assert(mine.subrange(0, theirs.len() as int)[i as int] == mine[i as int]);
                return false;
            }
            i = i + 1;
        }
        assert(theirs =~= mine.subrange(0, theirs.len() as int));
        true
    }
}

impl Resolver {
    /// Starts the search for the place of `target`.
    pub fn start(target: Place, base: Place) -> (r: Resolver)
        ensures
            r.deep_view() == ResolverView::start(target.deep_view(), base.deep_view()),
    {
        Resolver { base, at: target, hops: MAX_HOPS, search: Search::Probing }
    }

    /// What the driver is to find out.
    pub fn query(&self) -> (q: Query)
        ensures
            q.deep_view() == self.deep_view().query(),
    {
        match self.search {
            Search::Probing => Query::Probe { place: self.at.copied() },
            Search::Climbing => Query::Exists { place: self.at.copied() },
            Search::Comparing => Query::Canonical {
                place: self.at.copied(),
                base: self.base.copied(),
            },
            Search::Decided(_) => Query::Nothing,
        }
    }

    /// Whether the target lies inside, once the search is over.
    pub fn verdict(&self) -> (r: Option<bool>)
        ensures
            r == self.deep_view().verdict(),
    {
        match self.search {
            Search::Decided(inside) => Some(inside),
            _ => None,
        }
    }

    /// Goes on to the directory above.
    fn climb(&mut self)
        ensures
            final(self).deep_view() == old(self).deep_view().climb(),
    {
        match self.at.parent() {
            Some(a) => {
                self.at = a;
                self.search = Search::Climbing;
            },
            None => {
                self.search = Search::Decided(false);
            },
        }
    }

    /// Follows a link.
    fn follow(&mut self, link: Place)
        ensures
            final(self).deep_view() == old(self).deep_view().follow(link.deep_view()),
    {
        if self.hops == 0 {
            self.search = Search::Decided(false);
        } else {
            let place = match self.at.parent() {
                Some(a) => a.joined(&link),
                None => self.base.joined(&link),
            };
            self.at = place;
            self.hops = self.hops - 1;
            self.search = Search::Probing;
        }
    }

    /// Takes what the driver found out.
    pub fn answer(&mut self, answer: Answer)
        ensures
            final(self).deep_view() == old(self).deep_view().next(answer.deep_view()),
    {
        match (self.search, answer) {
            (Search::Probing, Answer::Link(Some(link))) => {
                self.follow(link);
            },
            (Search::Probing, Answer::Link(None)) => {
                self.search = Search::Decided(false);
            },
            (Search::Probing, Answer::Plain) => {
                self.search = Search::Comparing;
            },
            (Search::Probing, Answer::Missing) => {
                self.climb();
            },
            (Search::Climbing, Answer::Exists(there)) => {
                if there {
                    self.search = Search::Probing;
                } else {
                    self.climb();
                }
            },
            (Search::Comparing, Answer::Canonical { place, base }) => {
                let inside: bool = match (place, base) {
                    (Some(p), Some(b)) => p.within(&b),
                    _ => false,
                };
                self.search = Search::Decided(inside);
            },
            _ => {},
        }
    }
}

/// The state that the answers lead to.
pub open spec fn resolved(s: ResolverView, answers: Seq<AnswerView>) -> ResolverView
    decreases answers.len(),
{
    if answers.len() == 0 {
        s
    } else {
        resolved(s, answers.drop_last()).next(answers.last())
    }
}

/// A target counts as inside only where its real place, links followed, is the real place
/// of the base or lies under it: the answer that decides says so.
pub proof fn law_inside_is_real(s: ResolverView, answer: AnswerView)
    requires
        s.verdict() is None,
        s.next(answer).verdict() == Some(true),
    ensures
        s.query() == (QueryView::Canonical { place: s.at, base: s.base }),
        answer matches AnswerView::Canonical { place: Some(p), base: Some(b) } && p.within(b),
{
}

/// How far the search is from its end while no link is followed.
pub open spec fn distance(s: ResolverView) -> nat {
    match s.search {
        Search::Climbing => 2 * s.at.names.len() + 3,
        Search::Probing => 2 * s.at.names.len() + 2,
        Search::Comparing => 1,
        Search::Decided(_) => 0,
    }
}

/// The answer is one to the query.
pub open spec fn replies(query: QueryView, answer: AnswerView) -> bool {
    match query {
        QueryView::Probe { .. } => answer is Link || answer is Plain || answer is Missing,
        QueryView::Exists { .. } => answer is Exists,
        QueryView::Canonical { .. } => answer is Canonical,
        QueryView::Nothing => false,
    }
}

/// The search ends: every answer uses up a link, of which few are followed, or brings it
/// nearer to its end.
pub proof fn law_search_ends(s: ResolverView, answer: AnswerView)
    requires
        replies(s.query(), answer),
    ensures
        s.next(answer).hops < s.hops || (s.next(answer).hops == s.hops && distance(
            s.next(answer),
        ) < distance(s)),
{
}

/// The number of links among the answers.
pub open spec fn links(answers: Seq<AnswerView>) -> nat
    decreases answers.len(),
{
    if answers.len() == 0 {
        0
    } else {
        links(answers.drop_last()) + if answers.last() is Link {
            1nat
        } else {
            0nat
        }
    }
}

/// As long as the search goes on, and all answers are to what it asked, every link was
/// followed and each took one of the [`MAX_HOPS`] hops.
pub proof fn law_links_are_counted(target: PlaceView, base: PlaceView, answers: Seq<AnswerView>)
    requires
        forall|i: int|
            0 <= i < answers.len() ==> replies(
                resolved(ResolverView::start(target, base), answers.take(i)).query(),
                #[trigger] answers[i],
            ),
        resolved(ResolverView::start(target, base), answers).verdict() is None,
    ensures
        resolved(ResolverView::start(target, base), answers).hops + links(answers) == MAX_HOPS,
    decreases answers.len(),
{
    if answers.len() > 0 {
        let s0 = ResolverView::start(target, base);
        let front = answers.drop_last();
        let n = answers.len() - 1;
        assert forall|i: int| 0 <= i < front.len() implies replies(
            resolved(s0, front.take(i)).query(),
            #[trigger] front[i],
        ) by {
            assert(front.take(i) =~= answers.take(i));
            assert(front[i] == answers[i]);
        }
        assert(answers.take(n) =~= front);
        assert(replies(resolved(s0, answers.take(n)).query(), answers[n]));
        law_links_are_counted(target, base, front);
    }
}

/// The components of `outer` are the first components of `inner`; a path of no components at
/// all is in front of every path.
pub open spec fn leads(outer: PlaceView, inner: PlaceView) -> bool {
    (outer.absolute || outer.names.len() > 0) ==> outer.absolute == inner.absolute && exists|
        rest: Seq<Seq<u8>>,
    | inner.names == #[trigger] (outer.names + rest)
}

/// A place lies within another where it starts with all of the other's components.
pub proof fn law_within_is_by_components(p: PlaceView, base: PlaceView)
    ensures
        p.within(base) <==> leads(base, p),
{
    if base.names.is_prefix_of(p.names) {
        let rest = p.names.skip(base.names.len() as int);
        assert(p.names =~= base.names + rest);
    }
    if leads(base, p) && (base.absolute || base.names.len() > 0) {
        let rest = choose|rest: Seq<Seq<u8>>| p.names == #[trigger] (base.names + rest);
        assert(base.names =~= p.names.subrange(0, base.names.len() as int));
    }
}

/// A link is followed from the directory that holds it, by way of all of its components, as
/// long as hops are left: one that starts at the root leads where it says, another leads
/// on from the directory.
pub proof fn law_links_lead_on(s: ResolverView, link: PlaceView)
    requires
        s.search is Probing,
        s.hops > 0,
    ensures
        ({
            let t = s.next(AnswerView::Link(Some(link)));
            let dir = if s.at.names.len() > 0 {
                PlaceView { absolute: s.at.absolute, names: s.at.names.drop_last() }
            } else {
                s.base
            };
            &&& t.search is Probing
            &&& t.base == s.base
            &&& t.hops == s.hops - 1
            &&& link.absolute ==> t.at == link
            &&& !link.absolute ==> t.at.absolute == dir.absolute && {
                ||| t.at.names == dir.names + link.names
                ||| link.names.len() > 0 && link.names[0] =~= seq![46u8] && t.at.names == dir.names
                    + link.names.drop_first()
            }
            &&& !link.absolute && (link.names.len() == 0 || link.names[0] != seq![46u8])
                ==> t.at.names == dir.names + link.names
        }),
{
    let dir = match s.at.parent() {
        Some(a) => a,
        None => s.base,
    };
    assert(dir.names.len() == 0 ==> dir.names + link.names =~= link.names);
    if link.names.len() > 0 {
        assert(is_dot(link.names[0]) <==> link.names[0] =~= seq![46u8]);
    }
}

/// A target is refused only for a reason: its real place, or that of the base, cannot be
/// found; its real place does not lie within that of the base; a link cannot be read; a
/// link is met when all hops are used up; or nothing is left above that could exist.
pub proof fn law_refusal_has_a_cause(s: ResolverView, answer: AnswerView)
    requires
        s.verdict() is None,
        s.next(answer).verdict() == Some(false),
    ensures
        match answer {
            AnswerView::Canonical { place: Some(p), base: Some(b) } => !leads(b, p),
            AnswerView::Canonical { .. } => true,
            AnswerView::Link(Some(_)) => s.hops == 0,
            AnswerView::Link(None) => true,
            AnswerView::Missing | AnswerView::Exists(false) => s.at.names.len() == 0,
            _ => false,
        },
{
    if let AnswerView::Canonical { place: Some(p), base: Some(b) } = answer {
        law_within_is_by_components(p, b);
    }
}

/// The driver answers a search for a target that is not there, with `missing` directories
/// above it that are not there either.
pub open spec fn not_there(missing: nat) -> Seq<AnswerView> {
    Seq::new(
        missing + 1,
        |i: int|
            if i == 0 {
                AnswerView::Missing
            } else {
                AnswerView::Exists(false)
            },
    )
}

/// The first names of a place.
pub open spec fn shortened(place: PlaceView, names: int) -> PlaceView {
    PlaceView { absolute: place.absolute, names: place.names.take(names) }
}

/// A search goes up one directory after the other.
proof fn lemma_goes_up(target: PlaceView, base: PlaceView, missing: nat)
    requires
        missing < target.names.len(),
    ensures
        resolved(ResolverView::start(target, base), not_there(missing)) == (ResolverView {
            base,
            at: shortened(target, target.names.len() - 1 - missing),
            hops: MAX_HOPS,
            search: Search::Climbing,
        }),
    decreases missing,
{
    let s0 = ResolverView::start(target, base);
    let all = not_there(missing);
    let front = all.drop_last();
    if missing == 0 {
        assert(front =~= seq![]);
        assert(resolved(s0, front) == s0);
        assert(target.names.drop_last() =~= target.names.take(target.names.len() - 1));
    } else {
        assert(front =~= not_there((missing - 1) as nat));
        lemma_goes_up(target, base, (missing - 1) as nat);
        let above = shortened(target, target.names.len() - missing);
        assert(above.names.drop_last() =~= target.names.take(target.names.len() - 1 - missing));
    }
}

/// The nearest directory that exists decides about a target that does not exist, however far
/// up it is: after the target each directory above it is asked for, the nearest first, until
/// one is there; if that is no link, the target lies inside exactly where the real place of
/// that directory starts with the components of the real place of the base.
pub proof fn law_nearest_directory_decides(
    target: PlaceView,
    base: PlaceView,
    missing: nat,
    place: PlaceView,
    real_base: PlaceView,
)
    requires
        missing < target.names.len(),
    ensures
        ({
            let s0 = ResolverView::start(target, base);
            let found = shortened(target, target.names.len() - 1 - missing);
            let probed = not_there(missing).push(AnswerView::Exists(true));
            let plain = probed.push(AnswerView::Plain);
            let last = plain.push(
                AnswerView::Canonical { place: Some(place), base: Some(real_base) },
            );
            &&& s0.query() == (QueryView::Probe { place: target })
            &&& forall|i: nat|
                i <= missing ==> (#[trigger] resolved(s0, not_there(i))).query() == (
                QueryView::Exists { place: shortened(target, target.names.len() - 1 - i) })
            &&& resolved(s0, probed).query() == (QueryView::Probe { place: found })
            &&& resolved(s0, plain).query() == (QueryView::Canonical { place: found, base })
            &&& resolved(s0, last).verdict() == Some(leads(real_base, place))
        }),
{
    let s0 = ResolverView::start(target, base);
    let probed = not_there(missing).push(AnswerView::Exists(true));
    let plain = probed.push(AnswerView::Plain);
    let last = plain.push(AnswerView::Canonical { place: Some(place), base: Some(real_base) });
    assert forall|i: nat| i <= missing implies (#[trigger] resolved(s0, not_there(i))).query() == (
    QueryView::Exists { place: shortened(target, target.names.len() - 1 - i) }) by {
        lemma_goes_up(target, base, i);
    }
    lemma_goes_up(target, base, missing);
    assert(probed.drop_last() =~= not_there(missing));
    assert(plain.drop_last() =~= probed);
    assert(last.drop_last() =~= plain);
    law_within_is_by_components(place, real_base);
}

/// A target that exists and is no link lies inside exactly where its real place starts with
/// the components of the real place of the base, however many links led to it.
pub proof fn law_real_place_decides(s: ResolverView, place: PlaceView, real_base: PlaceView)
    requires
        s.search is Probing,
    ensures
        ({
            let compared = s.next(AnswerView::Plain);
            &&& s.query() == (QueryView::Probe { place: s.at })
            &&& compared.query() == (QueryView::Canonical { place: s.at, base: s.base })
            &&& compared.next(
                AnswerView::Canonical { place: Some(place), base: Some(real_base) },
            ).verdict() == Some(leads(real_base, place))
        }),
{
    law_within_is_by_components(place, real_base);
}

/// From any state of the search, directories that are not there are passed one by one: after
/// each the directory above it is asked for, and a directory that is there is probed next.
pub proof fn law_search_goes_up(s: ResolverView)
    ensures
        (s.search is Probing || s.search is Climbing) && s.at.names.len() > 0 ==> {
            let t = s.next(
                if s.search is Probing {
                    AnswerView::Missing
                } else {
                    AnswerView::Exists(false)
                },
            );
            &&& t.query() == (QueryView::Exists { place: shortened(s.at, s.at.names.len() - 1) })
            &&& t.hops == s.hops && t.base == s.base
        },
        s.search is Climbing ==> s.next(AnswerView::Exists(true)) == (ResolverView {
            search: Search::Probing,
            ..s
        }),
{
    assert(s.at.names.len() > 0 ==> s.at.names.drop_last() =~= s.at.names.take(
        s.at.names.len() - 1,
    ));
}

/// What is not an answer to the question changes nothing.
pub proof fn law_only_answers_count(s: ResolverView, answer: AnswerView)
    requires
        !replies(s.query(), answer),
    ensures
        s.next(answer) == s,
{
}

/// The contracts speak of an answer as it is: a place is its root and its names, byte for byte.
pub proof fn law_answer_as_it_is(answer: Answer, place: Place)
    ensures
        match answer {
            Answer::Link(p) => answer.deep_view() matches AnswerView::Link(v) && match p {
                Some(q) => v == Some(q.deep_view()),
                None => v is None,
            },
            Answer::Plain => answer.deep_view() is Plain,
            Answer::Missing => answer.deep_view() is Missing,
            Answer::Exists(there) => answer.deep_view() == AnswerView::Exists(there),
            Answer::Canonical { place: p, base: b } => {
                &&& answer.deep_view() is Canonical
                &&& match p {
                    Some(q) => answer.deep_view()->place == Some(q.deep_view()),
                    None => answer.deep_view()->place is None,
                }
                &&& match b {
                    Some(q) => answer.deep_view()->base == Some(q.deep_view()),
                    None => answer.deep_view()->base is None,
                }
            },
        },
        place.deep_view().absolute == place.absolute,
        place.deep_view().names.len() == place.names@.len(),
        forall|k: int|
            0 <= k < place.names@.len() ==> #[trigger] place.deep_view().names[k]
                == place.names@[k]@,
{
}

} // verus!
