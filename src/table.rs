//! The handler table: filters, registration in order, and the choice of the
//! handler that takes a message.

use vstd::prelude::*;

use crate::context::{all_supplied, all_well_formed, all_wf, check_all, DataStore, MediaKind, MessageInfo, Param};
use crate::error::{is_parse_error, GrammersthonError};

verus! {

/// Whether the regular expression `p` compiles.
pub uninterp spec fn pattern_compiles(p: Seq<char>) -> bool;

/// Whether the regular expression `p` matches somewhere in `t`.
pub uninterp spec fn pattern_finds(p: Seq<char>, t: Seq<char>) -> bool;

/// Relies on `regex::Regex::new`: whether it accepts the pattern depends on
/// the pattern alone.
#[verifier::external_body]
fn compiles(p: &str) -> (r: bool)
    ensures
        r == pattern_compiles(p@),
{
    regex::Regex::new(p).is_ok()
}

/// Relies on `regex::Regex::new` and `regex::Regex::is_match`: whether a
/// pattern that compiles matches a text depends on the two alone.
#[verifier::external_body]
fn finds(p: &str, t: &str) -> (r: bool)
    requires
        pattern_compiles(p@),
    ensures
        r == pattern_finds(p@, t@),
{
    match regex::Regex::new(p) {
        Ok(re) => re.is_match(t),
        Err(_) => false,
    }
}

/// A condition on a message that a handler asks for.
#[derive(Clone)]
pub enum HandlerFilter {
    /// A regular expression that must match somewhere in the message's text.
    Regex(String),
    /// A predicate of the application's, known by its number.
    Fn(u64),
}

/// Whether every pattern among `filters` compiles.
pub open spec fn all_filters_wf(filters: Seq<HandlerFilter>) -> bool {
    forall|j: int| 0 <= j < filters.len() ==> (#[trigger] filters[j]).wf()
}

/// Whether every pattern among `filters` compiles.
pub fn filters_compile(filters: &Vec<HandlerFilter>) -> (r: bool)
    ensures
        r == all_filters_wf(filters@),
{
    let mut j: usize = 0;
    while j < filters.len()
        invariant
            j <= filters@.len(),
            forall|k: int| 0 <= k < j ==> (#[trigger] filters@[k]).wf(),
        decreases filters.len() - j,
    {
        if let HandlerFilter::Regex(p) = &filters[j] {
            if !compiles(p.as_str()) {
                return false;
            }
        }
        j += 1;
    }
    true
}

/// Whether `pred` gives one answer for each predicate number.
pub open spec fn deterministic<P: Fn(u64) -> bool>(pred: P) -> bool {
    &&& forall|id: u64| pred.requires((id,))
    &&& forall|id: u64, b: bool| #[trigger] pred.ensures((id,), b) ==> b == pred.ensures((id,), true)
}

impl HandlerFilter {
    /// A regular expression that compiles, or any predicate.
    pub open spec fn wf(&self) -> bool {
        match self {
            HandlerFilter::Regex(p) => pattern_compiles(p@),
            HandlerFilter::Fn(_) => true,
        }
    }

    /// Whether the filter holds of a message with text `text`, where `pred`
    /// answers for the application's predicates.
    pub open spec fn holds<P: Fn(u64) -> bool>(&self, text: Seq<char>, pred: P) -> bool {
        match self {
            HandlerFilter::Regex(p) => pattern_finds(p@, text),
            HandlerFilter::Fn(id) => pred.ensures((*id,), true),
        }
    }

    /// Whether the filter holds of a message with text `text`.
    pub fn is_match<P: Fn(u64) -> bool>(&self, text: &str, pred: &P) -> (r: bool)
        requires
            self.wf(),
            deterministic(*pred),
        ensures
            r == self.holds(text@, *pred),
    {
        match self {
            HandlerFilter::Regex(p) => finds(p.as_str(), text),
            HandlerFilter::Fn(id) => pred(*id),
        }
    }
}

/// Whether `b` is `a` after `m` rewrote its pattern, if it has one.
pub open spec fn rewritten<M: Fn(&String) -> String>(a: HandlerFilter, b: HandlerFilter, m: M) -> bool {
    match a {
        HandlerFilter::Regex(p) => b matches HandlerFilter::Regex(q) && m.ensures((&p,), q),
        HandlerFilter::Fn(id) => b == HandlerFilter::Fn(id),
    }
}

/// Whether `f` is a pattern that `m` rewrites to `q`.
pub open spec fn rewrites_to<M: Fn(&String) -> String>(f: HandlerFilter, q: String, m: M) -> bool {
    match f {
        HandlerFilter::Regex(p) => m.ensures((&p,), q),
        HandlerFilter::Fn(_) => false,
    }
}

/// Whether `q` is the rewriting by `m` of the pattern of `f`, and compiles;
/// nothing for a predicate.
pub open spec fn prepared<M: Fn(&String) -> String>(f: HandlerFilter, q: Option<String>, m: M) -> bool {
    match (f, q) {
        (HandlerFilter::Regex(p), Some(q)) => m.ensures((&p,), q) && pattern_compiles(q@),
        (HandlerFilter::Fn(_), None) => true,
        _ => false,
    }
}

/// Whether handler `b` is handler `a` after `m` rewrote its patterns.
pub open spec fn rewritten_handler<M: Fn(&String) -> String>(a: HandlerWrap, b: HandlerWrap, m: M) -> bool {
    &&& b.params == a.params
    &&& b.filters@.len() == a.filters@.len()
    &&& forall|j: int| 0 <= j < a.filters@.len() ==> rewritten(#[trigger] a.filters@[j], b.filters@[j], m)
}

/// A registered handler: its filters, all of which must hold, and the
/// parameters it declares, all of which the event must supply.
#[derive(Clone)]
pub struct HandlerWrap {
    pub filters: Vec<HandlerFilter>,
    pub params: Vec<Param>,
}

impl HandlerWrap {
    pub open spec fn wf(&self) -> bool {
        &&& forall|j: int| 0 <= j < self.filters@.len() ==> (#[trigger] self.filters@[j]).wf()
        &&& all_wf(self.params@)
    }

    /// Whether the handler takes the message `m`: every filter holds and
    /// every parameter is supplied.
    pub open spec fn fires<P: Fn(u64) -> bool>(&self, m: MessageInfo, tags: Set<u64>, pred: P) -> bool {
        &&& forall|j: int|
            0 <= j < self.filters@.len() ==> (#[trigger] self.filters@[j]).holds(m.text@, pred)
        &&& all_supplied(self.params@, m, tags)
    }
}

/// The position of the first handler from `from` on that takes the message.
pub open spec fn first_firing<P: Fn(u64) -> bool>(
    hs: Seq<HandlerWrap>,
    m: MessageInfo,
    tags: Set<u64>,
    pred: P,
    from: int,
) -> Option<int>
    decreases hs.len() - from,
{
    if from < 0 || from >= hs.len() {
        None
    } else if hs[from].fires(m, tags, pred) {
        Some(from)
    } else {
        first_firing(hs, m, tags, pred, from + 1)
    }
}

proof fn lemma_first_firing_found<P: Fn(u64) -> bool>(
    hs: Seq<HandlerWrap>,
    m: MessageInfo,
    tags: Set<u64>,
    pred: P,
    from: int,
)
    requires
        0 <= from,
    ensures
        first_firing(hs, m, tags, pred, from) matches Some(k) ==> from <= k < hs.len() && hs[k].fires(
            m,
            tags,
            pred,
        ) && forall|j: int| from <= j < k ==> !(#[trigger] hs[j]).fires(m, tags, pred),
        first_firing(hs, m, tags, pred, from) is None ==> forall|j: int|
            from <= j < hs.len() ==> !(#[trigger] hs[j]).fires(m, tags, pred),
    decreases hs.len() - from,
{
    if from < hs.len() && !hs[from].fires(m, tags, pred) {
        lemma_first_firing_found(hs, m, tags, pred, from + 1);
    }
}

/// The handler chosen is the first that takes the message: every handler
/// before it does not; with no handler chosen, none does.
pub proof fn lemma_routed_first<P: Fn(u64) -> bool>(
    hs: Seq<HandlerWrap>,
    fallback: Seq<Param>,
    m: MessageInfo,
    tags: Set<u64>,
    pred: P,
)
    requires
        hs.len() <= usize::MAX,
    ensures
        routed(hs, fallback, m, tags, pred) matches Route::Handler(k) ==> k < hs.len() && hs[k as int].fires(
            m,
            tags,
            pred,
        ) && forall|j: int| 0 <= j < k ==> !(#[trigger] hs[j]).fires(m, tags, pred),
        !(routed(hs, fallback, m, tags, pred) is Handler) ==> forall|j: int|
            0 <= j < hs.len() ==> !(#[trigger] hs[j]).fires(m, tags, pred),
{
    lemma_first_firing_found(hs, m, tags, pred, 0);
}

/// Registration order is priority: when two handlers both take a message,
/// one at or before the earlier is chosen, never the later.
pub proof fn lemma_earlier_handler_wins<P: Fn(u64) -> bool>(
    hs: Seq<HandlerWrap>,
    fallback: Seq<Param>,
    m: MessageInfo,
    tags: Set<u64>,
    pred: P,
    i: int,
    j: int,
)
    requires
        hs.len() <= usize::MAX,
        0 <= i < j < hs.len(),
        hs[i].fires(m, tags, pred),
        hs[j].fires(m, tags, pred),
    ensures
        routed(hs, fallback, m, tags, pred) matches Route::Handler(k) && k <= i,
        routed(hs, fallback, m, tags, pred) != Route::Handler(j as usize),
{
    lemma_first_firing_found(hs, m, tags, pred, 0);
}

/// A handler that asks for a sticker never takes a message that carries
/// none, whatever its filters say; the message goes on to a later handler
/// or to the fallback.
pub proof fn lemma_sticker_handler_skipped<P: Fn(u64) -> bool>(
    hs: Seq<HandlerWrap>,
    fallback: Seq<Param>,
    m: MessageInfo,
    tags: Set<u64>,
    pred: P,
    i: int,
    k: int,
)
    requires
        hs.len() <= usize::MAX,
        0 <= i < hs.len(),
        0 <= k < hs[i].params@.len(),
        hs[i].params@[k] is Sticker,
        m.media != Some(MediaKind::Sticker),
    ensures
        !hs[i].fires(m, tags, pred),
        routed(hs, fallback, m, tags, pred) != Route::Handler(i as usize),
{
    assert(!hs[i].params@[k].supplied(m, tags));
    lemma_first_firing_found(hs, m, tags, pred, 0);
}

/// Where a message goes.
#[derive(PartialEq, Eq, Structural, Clone, Copy, Debug)]
pub enum Route {
    /// To the registered handler at this position.
    Handler(usize),
    /// To the message fallback.
    Fallback,
    /// Nowhere: even the fallback's parameters are not supplied.
    Unsatisfied,
}

/// Where the table `hs`, with fallback parameters `fallback`, sends the
/// message `m`: to the first handler that takes it, else to the fallback
/// when the event supplies its parameters.
pub open spec fn routed<P: Fn(u64) -> bool>(
    hs: Seq<HandlerWrap>,
    fallback: Seq<Param>,
    m: MessageInfo,
    tags: Set<u64>,
    pred: P,
) -> Route {
    routed_from(hs, fallback, m, tags, pred, 0)
}

/// Where the message goes when only the handlers from position `from` on
/// are tried.
pub open spec fn routed_from<P: Fn(u64) -> bool>(
    hs: Seq<HandlerWrap>,
    fallback: Seq<Param>,
    m: MessageInfo,
    tags: Set<u64>,
    pred: P,
    from: int,
) -> Route {
    match first_firing(hs, m, tags, pred, from) {
        Some(i) => Route::Handler(i as usize),
        None => if all_supplied(fallback, m, tags) {
            Route::Fallback
        } else {
            Route::Unsatisfied
        },
    }
}

/// All the registered handlers, in the order of registration, and what the
/// message fallback asks for.
#[derive(Clone)]
pub struct Handlers {
    handlers: Vec<HandlerWrap>,
    message_fallback: Vec<Param>,
    interceptor: bool,
}

impl Handlers {
    /// The registered handlers in order.
    pub closed spec fn entries(&self) -> Seq<HandlerWrap> {
        self.handlers@
    }

    /// The parameters of the message fallback.
    pub closed spec fn fallback(&self) -> Seq<Param> {
        self.message_fallback@
    }

    /// Whether an interceptor runs before routing.
    pub closed spec fn intercepts(&self) -> bool {
        self.interceptor
    }

    /// Every pattern compiles and every parameter is well formed.
    pub closed spec fn wf(&self) -> bool {
        &&& forall|i: int| 0 <= i < self.handlers@.len() ==> (#[trigger] self.handlers@[i]).wf()
        &&& all_wf(self.message_fallback@)
    }

    /// A table with no handlers, no interceptor, and a message fallback that
    /// takes the text.
    pub fn new() -> (r: Handlers)
        ensures
            r.wf(),
            r.entries().len() == 0,
            r.fallback() == seq![Param::Text],
            !r.intercepts(),
    {
        let r = Handlers { handlers: Vec::new(), message_fallback: vec![Param::Text], interceptor: false };
        assert(r.message_fallback@ =~= seq![Param::Text]);
        r
    }

    /// The number of registered handlers.
    pub fn len(&self) -> (r: usize)
        ensures
            r == self.entries().len(),
    {
        self.handlers.len()
    }

    /// Whether an interceptor runs before routing.
    pub fn has_interceptor(&self) -> (r: bool)
        ensures
            r == self.intercepts(),
    {
        self.interceptor
    }

    /// Registers a handler after all the others and returns its position.
    /// Its patterns must compile: a malformed pattern is a programming error
    /// that `filters_compile` reveals before the call.
    pub fn add(&mut self, filters: Vec<HandlerFilter>, params: Vec<Param>) -> (r: usize)
        requires
            old(self).wf(),
            all_filters_wf(filters@),
            all_wf(params@),
        ensures
            final(self).wf(),
            final(self).fallback() == old(self).fallback(),
            final(self).intercepts() == old(self).intercepts(),
            r == old(self).entries().len(),
            final(self).entries() == old(self).entries().push(HandlerWrap { filters, params }),
    {
        let i = self.handlers.len();
        self.handlers.push(HandlerWrap { filters, params });
        i
    }

    /// Registers a handler after all the others, after checking that its
    /// patterns compile and its parameters are well formed. Fails, and
    /// registers nothing, when they are not: with the first pattern that
    /// does not compile, else with a report of a malformed parameter.
    pub fn try_add(&mut self, filters: Vec<HandlerFilter>, params: Vec<Param>) -> (r: Result<
        usize,
        GrammersthonError,
    >)
        requires
            old(self).wf(),
        ensures
            final(self).wf(),
            final(self).fallback() == old(self).fallback(),
            final(self).intercepts() == old(self).intercepts(),
            r is Ok <==> all_filters_wf(filters@) && all_wf(params@),
            r matches Ok(i) ==> i == old(self).entries().len() && final(self).entries() == old(
                self,
            ).entries().push(HandlerWrap { filters, params }),
            r matches Err(e) ==> final(self).entries() == old(self).entries() && (
            if !all_filters_wf(filters@) {
                exists|j: int|
                    0 <= j < filters@.len() && (forall|k: int|
                        0 <= k < j ==> (#[trigger] filters@[k]).wf()) && !(
                    #[trigger] filters@[j]).wf() && is_parse_error(e, filters@[j]->Regex_0@)
            } else {
                e matches GrammersthonError::MissingParameters(m) && m@
                    == "well-formed handler parameters"@
            }),
    {
        let mut j: usize = 0;
        while j < filters.len()
            invariant
                self.wf(),
                *self == *old(self),
                j <= filters@.len(),
                forall|k: int| 0 <= k < j ==> (#[trigger] filters@[k]).wf(),
            decreases filters.len() - j,
        {
            if let HandlerFilter::Regex(p) = &filters[j] {
                if !compiles(p.as_str()) {
                    return Err(GrammersthonError::Parse(p.clone(), None));
                }
            }
            j += 1;
        }
        if !all_well_formed(&params) {
            return Err(
                GrammersthonError::MissingParameters("well-formed handler parameters".to_owned()),
            );
        }
        Ok(self.add(filters, params))
    }

    /// Sets the parameters of the message fallback, in place of the earlier ones.
    pub fn set_message_fallback(&mut self, params: Vec<Param>)
        requires
            old(self).wf(),
            all_wf(params@),
        ensures
            final(self).wf(),
            final(self).entries() == old(self).entries(),
            final(self).fallback() == params@,
            final(self).intercepts() == old(self).intercepts(),
    {
        self.message_fallback = params;
    }

    /// Sets whether an interceptor runs before routing.
    pub fn set_interceptor(&mut self, on: bool)
        requires
            old(self).wf(),
        ensures
            final(self).wf(),
            final(self).entries() == old(self).entries(),
            final(self).fallback() == old(self).fallback(),
            final(self).intercepts() == on,
    {
        self.interceptor = on;
    }

    /// Rewrites every pattern with `m`, as a pattern mutator does, once
    /// registration is complete. Fails, and changes nothing, when a rewritten
    /// pattern does not compile.
    pub fn mutate_patterns<M: Fn(&String) -> String>(&mut self, m: &M) -> (r: Result<
        (),
        GrammersthonError,
    >)
        requires
            old(self).wf(),
            forall|p: &String| #[trigger] m.requires((p,)),
        ensures
            final(self).wf(),
            final(self).fallback() == old(self).fallback(),
            final(self).intercepts() == old(self).intercepts(),
            final(self).entries().len() == old(self).entries().len(),
            r is Ok ==> forall|i: int|
                0 <= i < old(self).entries().len() ==> rewritten_handler(
                    #[trigger] old(self).entries()[i],
                    final(self).entries()[i],
                    *m,
                ),
            r matches Err(e) ==> {
                &&& final(self).entries() == old(self).entries()
                &&& e is Parse
                &&& !pattern_compiles(e->Parse_0@)
                &&& exists|i: int, j: int|
                    0 <= i < old(self).entries().len() && 0 <= j < old(
                        self,
                    ).entries()[i].filters@.len() && rewrites_to(
                        #[trigger] old(self).entries()[i].filters@[j],
                        e->Parse_0,
                        *m,
                    )
            },
    {
        let ghost before = self.handlers@;
        // The rewritten patterns, all checked before any is stored.
        let mut fresh: Vec<Vec<Option<String>>> = Vec::new();
        let mut i: usize = 0;
        while i < self.handlers.len()
            invariant
                self.wf(),
                *self == *old(self),
                forall|p: &String| #[trigger] m.requires((p,)),
                i <= self.handlers@.len(),
                fresh@.len() == i,
                forall|k: int| 0 <= k < i ==> (#[trigger] fresh@[k])@.len() == self.handlers@[k].filters@.len(),
                forall|k: int, j: int|
                    0 <= k < i && 0 <= j < self.handlers@[k].filters@.len() ==> prepared(#[trigger] self.handlers@[k].filters@[j], fresh@[k]@[j], *m),
            decreases self.handlers.len() - i,
        {
            let fs = &self.handlers[i].filters;
            let mut row: Vec<Option<String>> = Vec::new();
            let mut j: usize = 0;
            while j < fs.len()
                invariant
                    self.wf(),
                    *self == *old(self),
                    *fs == self.handlers@[i as int].filters,
                    i < self.handlers@.len(),
                    forall|p: &String| #[trigger] m.requires((p,)),
                    j <= fs@.len(),
                    row@.len() == j,
                    forall|j2: int|
                        0 <= j2 < j ==> prepared(#[trigger] fs@[j2], row@[j2], *m),
                decreases fs.len() - j,
            {
                match &fs[j] {
                    HandlerFilter::Regex(p) => {
                        let q = m(p);
                        if !compiles(q.as_str()) {
                            assert(rewrites_to(old(self).entries()[i as int].filters@[j as int], q, *m));
                            return Err(GrammersthonError::Parse(q, None));
                        }
                        row.push(Some(q));
                    },
                    HandlerFilter::Fn(_) => row.push(None),
                }
                j += 1;
            }
            fresh.push(row);
            i += 1;
        }
        let mut i: usize = 0;
        while i < self.handlers.len()
            invariant
                i <= self.handlers@.len(),
                self.handlers@.len() == before.len(),
                self.message_fallback == old(self).message_fallback,
                self.interceptor == old(self).interceptor,
                all_wf(self.message_fallback@),
                fresh@.len() == before.len(),
                forall|k: int| 0 <= k < before.len() ==> (#[trigger] fresh@[k])@.len() == before[k].filters@.len(),
                forall|k: int, j: int|
                    0 <= k < before.len() && 0 <= j < before[k].filters@.len() ==> prepared(#[trigger] before[k].filters@[j], fresh@[k]@[j], *m),
                forall|k: int| 0 <= k < before.len() ==> (#[trigger] before[k]).wf(),
                forall|k: int| i <= k < before.len() ==> #[trigger] self.handlers@[k] == before[k],
                forall|k: int| 0 <= k < before.len() ==> (#[trigger] self.handlers@[k]).wf(),
                forall|k: int| 0 <= k < i ==> rewritten_handler(#[trigger] before[k], self.handlers@[k], *m),
            decreases self.handlers.len() - i,
        {
            let row = &fresh[i];
            let old_filters = &self.handlers[i].filters;
            let mut filters: Vec<HandlerFilter> = Vec::new();
            let mut j: usize = 0;
            while j < row.len()
                invariant
                    i < before.len(),
                    fresh@.len() == before.len(),
                    *row == fresh@[i as int],
                    *old_filters == before[i as int].filters,
                    row@.len() == before[i as int].filters@.len(),
                    j <= row@.len(),
                    filters@.len() == j,
                    forall|j2: int|
                        0 <= j2 < before[i as int].filters@.len() ==> prepared(#[trigger] before[i as int].filters@[j2], fresh@[i as int]@[j2], *m),
                    forall|j2: int|
                        0 <= j2 < j ==> rewritten(
                            #[trigger] before[i as int].filters@[j2],
                            filters@[j2],
                            *m,
                        ) && filters@[j2].wf(),
                decreases row.len() - j,
            {
                let f = match (&old_filters[j], &row[j]) {
                    (_, Some(q)) => HandlerFilter::Regex(q.clone()),
                    (HandlerFilter::Fn(id), None) => HandlerFilter::Fn(*id),
                    (HandlerFilter::Regex(p), None) => HandlerFilter::Regex(p.clone()),
                };
                filters.push(f);
                assert(prepared(before[i as int].filters@[j as int], fresh@[i as int]@[j as int], *m));
                assert(rewritten(before[i as int].filters@[j as int], filters@[j as int], *m));
                j += 1;
            }
            let ghost params = self.handlers@[i as int].params;
            let ghost outer = self.handlers@;
            let ghost fresh_filters = filters;
            assert(fresh_filters@.len() == before[i as int].filters@.len());
            self.handlers[i].filters = filters;
            proof {
                let b = self.handlers@[i as int];
                assert(b.filters == fresh_filters);
                assert(b.params == params);
                assert(before[i as int].wf());
                assert forall|j2: int| 0 <= j2 < b.filters@.len() implies (#[trigger] b.filters@[j2]).wf() by {
                    assert(rewritten(before[i as int].filters@[j2], fresh_filters@[j2], *m) && fresh_filters@[j2].wf());
                }
                assert(b.wf());
                assert forall|k: int| 0 <= k < before.len() implies (#[trigger] self.handlers@[k]).wf() by {
                    if k != i {
                        assert(self.handlers@[k] == outer[k]);
                    }
                }
                assert forall|k: int| 0 <= k < i + 1 implies rewritten_handler(#[trigger] before[k], self.handlers@[k], *m) by {
                    if k < i {
                        assert(self.handlers@[k] == outer[k]);
                        assert(rewritten_handler(before[k], outer[k], *m));
                    } else {
                        assert(outer[k] == before[k]);
                        assert(b.params == before[k].params);
                        assert(b.filters@.len() == before[k].filters@.len());
                        assert(rewritten_handler(before[k], b, *m));
                    }
                }
                assert forall|k: int| i < k < before.len() implies #[trigger] self.handlers@[k] == before[k] by {
                    assert(self.handlers@[k] == outer[k]);
                }
            }
            i += 1;
        }
        Ok(())
    }

    /// Whether the handler at position `i` takes the message.
    fn fires_at<V, P: Fn(u64) -> bool>(&self, i: usize, m: &MessageInfo, data: &DataStore<V>, pred: &P) -> (r: bool)
        requires
            self.wf(),
            i < self.entries().len(),
            deterministic(*pred),
        ensures
            r == self.entries()[i as int].fires(*m, data.view().dom(), *pred),
    {
        let h = &self.handlers[i];
        assert(h.wf());
        let mut j: usize = 0;
        while j < h.filters.len()
            invariant
                i < self.entries().len(),
                *h == self.entries()[i as int],
                h.wf(),
                deterministic(*pred),
                j <= h.filters@.len(),
                forall|k: int| 0 <= k < j ==> (#[trigger] h.filters@[k]).holds(m.text@, *pred),
            decreases h.filters.len() - j,
        {
            if !h.filters[j].is_match(m.text.as_str(), pred) {
                return false;
            }
            j += 1;
        }
        check_all(&h.params, m, data)
    }

    /// Where the message `m` goes: to the first handler, in the order of
    /// registration, whose filters all hold and whose parameters the event
    /// all supplies; else to the message fallback.
    pub fn route<V, P: Fn(u64) -> bool>(&self, m: &MessageInfo, data: &DataStore<V>, pred: &P) -> (r: Route)
        requires
            self.wf(),
            deterministic(*pred),
        ensures
            r == routed(self.entries(), self.fallback(), *m, data.view().dom(), *pred),
    {
        self.route_from(0, m, data, pred)
    }

    /// Where the message `m` goes when the handlers before position `from`
    /// are passed over: as for `route`, among the rest. A handler that could
    /// not take its values after all hands the message on this way.
    pub fn route_from<V, P: Fn(u64) -> bool>(
        &self,
        from: usize,
        m: &MessageInfo,
        data: &DataStore<V>,
        pred: &P,
    ) -> (r: Route)
        requires
            self.wf(),
            deterministic(*pred),
        ensures
            r == routed_from(self.entries(), self.fallback(), *m, data.view().dom(), *pred, from as int),
    {
        let ghost tags = data.view().dom();
        let mut i: usize = from;
        if i > self.handlers.len() {
            i = self.handlers.len();
        }
        while i < self.handlers.len()
            invariant
                self.wf(),
                deterministic(*pred),
                from <= i || i == self.entries().len(),
                i <= self.entries().len(),
                tags == data.view().dom(),
                first_firing(self.entries(), *m, tags, *pred, from as int) == first_firing(
                    self.entries(),
                    *m,
                    tags,
                    *pred,
                    i as int,
                ),
            decreases self.handlers.len() - i,
        {
            if self.fires_at(i, m, data, pred) {
                return Route::Handler(i);
            }
            i += 1;
        }
        if check_all(&self.message_fallback, m, data) {
            Route::Fallback
        } else {
            Route::Unsatisfied
        }
    }
}

} // verus!
