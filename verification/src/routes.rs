//! The entries a serve takes out of what was requested: each fetch service with its own origin, and each
//! receive service with its own directory.

use vstd::prelude::*;
use vstd::string::StringExecFns;

use crate::http;
use crate::serving;
use crate::text;

verus! {

broadcast use {vstd::seq::group_seq_axioms, vstd::string::group_string_axioms};

/// What the target of a fetch service begins with.
pub const FETCH_TARGET: &'static str = "fetch:";

/// What the target of a receive service begins with.
pub const RECV_TARGET: &'static str = "recv:";

/// The name of an entry, and what its target has after the scheme, where it has that scheme.
pub open spec fn of_scheme(entry: Seq<char>, scheme: Seq<char>) -> Option<(Seq<char>, Seq<char>)> {
    match text::split_first(entry, '=') {
        Some((name, target)) => match text::after(target, scheme) {
            Some(rest) => Some((name, rest)),
            None => None,
        },
        None => None,
    }
}

/// The entries of a scheme, in their order.
pub open spec fn taken(entries: Seq<Seq<char>>, scheme: Seq<char>) -> Seq<(Seq<char>, Seq<char>)>
    decreases entries.len(),
{
    if entries.len() == 0 {
        Seq::empty()
    } else {
        let rest = taken(entries.drop_last(), scheme);
        match of_scheme(entries.last(), scheme) {
            Some(route) => rest.push(route),
            None => rest,
        }
    }
}

/// The entries of any other scheme, as they were given and in their order.
pub open spec fn passed(entries: Seq<Seq<char>>, scheme: Seq<char>) -> Seq<Seq<char>>
    decreases entries.len(),
{
    if entries.len() == 0 {
        Seq::empty()
    } else {
        let rest = passed(entries.drop_last(), scheme);
        match of_scheme(entries.last(), scheme) {
            Some(route) => rest,
            None => rest.push(entries.last()),
        }
    }
}

/// The first entry that names no service.
pub open spec fn first_bare(entries: Seq<Seq<char>>) -> Option<Seq<char>>
    decreases entries.len(),
{
    if entries.len() == 0 {
        None
    } else {
        match first_bare(entries.drop_last()) {
            Some(entry) => Some(entry),
            None => if serving::is_named(entries.last()) {
                None
            } else {
                Some(entries.last())
            },
        }
    }
}

/// A route taken out: the name it is served under, and what its target has after the scheme.
struct Route {
    name: String,
    rest: String,
}

spec fn route_views(routes: Seq<Route>) -> Seq<(Seq<char>, Seq<char>)> {
    routes.map_values(|r: Route| (r.name@, r.rest@))
}

struct Split {
    taken: Vec<Route>,
    passed: Vec<String>,
}

/// Split the entries by a scheme. The first entry that names no service is refused.
fn split(requested: &Vec<String>, scheme: &str) -> (split: Result<Split, String>)
    ensures
        match split {
            Ok(split) => first_bare(text::texts(requested@)) is None && route_views(split.taken@)
                == taken(text::texts(requested@), scheme@) && text::texts(split.passed@) == passed(
                text::texts(requested@),
                scheme@,
            ),
            Err(line) => first_bare(text::texts(requested@)) is Some && line@
                == serving::bare_entry_message(first_bare(text::texts(requested@))->0),
        },
{
    let ghost all = text::texts(requested@);
    let mut routes: Vec<Route> = Vec::new();
    let mut rest: Vec<String> = Vec::new();
    let mut i: usize = 0;
    assert(route_views(routes@) =~= taken(all.take(0), scheme@));
    assert(text::texts(rest@) =~= passed(all.take(0), scheme@));
    while i < requested.len()
        invariant
            i <= requested.len(),
            all == text::texts(requested@),
            first_bare(all.take(i as int)) is None,
            route_views(routes@) == taken(all.take(i as int), scheme@),
            text::texts(rest@) == passed(all.take(i as int), scheme@),
        decreases requested.len() - i,
    {
        assert(all.take(i + 1).drop_last() =~= all.take(i as int));
        let ghost routes_before = routes@;
        let ghost rest_before = rest@;
        match text::split_once(requested[i].as_str(), '=') {
            None => {
                proof {
                    lemma_first_bare_stays(all, i + 1);
                }
                return Err(serving::bare_entry_line(requested[i].as_str()));
            },
            Some((name, target)) => match text::strip_prefix(target.as_str(), scheme) {
                Some(after) => {
                    routes.push(Route { name, rest: after.to_owned() });
                    assert(route_views(routes@) =~= route_views(routes_before).push(
                        of_scheme(all[i as int], scheme@)->0,
                    ));
                },
                None => {
                    rest.push(requested[i].clone());
                    assert(text::texts(rest@) =~= text::texts(rest_before).push(all[i as int]));
                },
            },
        }
        i = i + 1;
    }
    assert(all.take(i as int) =~= all);
    Ok(Split { taken: routes, passed: rest })
}

/// A bare entry found in the front stays the first one.
proof fn lemma_first_bare_stays(entries: Seq<Seq<char>>, n: int)
    requires
        0 <= n <= entries.len(),
        first_bare(entries.take(n)) is Some,
    ensures
        first_bare(entries) == first_bare(entries.take(n)),
    decreases entries.len() - n,
{
    if n < entries.len() {
        assert(entries.take(n + 1).drop_last() =~= entries.take(n));
        lemma_first_bare_stays(entries, n + 1);
    } else {
        assert(entries.take(n) =~= entries);
    }
}

/// A fetch service: the name it is served under, and the one origin it fetches from. Without one it
/// fetches from anywhere.
#[derive(Debug)]
pub struct FetchService {
    pub name: String,
    pub origin: Option<String>,
}

/// The scope of a fetch service, by what stands after its scheme.
pub open spec fn origin_of(rest: Seq<char>) -> Option<Seq<char>> {
    if rest.len() == 0 {
        None
    } else {
        Some(rest)
    }
}

/// The fetch services, as values.
pub open spec fn fetch_views(services: Seq<FetchService>) -> Seq<(Seq<char>, Option<Seq<char>>)> {
    services.map_values(
        |s: FetchService|
            (
                s.name@,
                match s.origin {
                    Some(origin) => Some(origin@),
                    None => None,
                },
            ),
    )
}

/// The fetch services of the requested entries: each with the origin its own entry gives it.
pub open spec fn fetches(entries: Seq<Seq<char>>) -> Seq<(Seq<char>, Option<Seq<char>>)> {
    taken(entries, FETCH_TARGET@).map_values(
        |route: (Seq<char>, Seq<char>)| (route.0, origin_of(route.1)),
    )
}

/// Whether the scope is none, or a URL.
pub open spec fn is_origin(rest: Seq<char>) -> bool {
    rest.len() == 0 || http::url_fault(rest) is None
}

/// What an origin that is no URL is answered.
pub open spec fn bad_origin_words(name: Seq<char>, rest: Seq<char>) -> Seq<char> {
    "`"@ + name + "=fetch:"@ + rest + "` names no origin to fetch from: "@ + http::url_fault(rest)->0
}

/// The fetch services of one node, each an instance of its own.
#[derive(Debug)]
pub struct FetchScope {
    services: Vec<FetchService>,
}

impl View for FetchScope {
    type V = Seq<(Seq<char>, Option<Seq<char>>)>;

    closed spec fn view(&self) -> Seq<(Seq<char>, Option<Seq<char>>)> {
        fetch_views(self.services@)
    }
}

/// What an open relay is answered.
pub open spec fn open_relay_words(name: Seq<char>) -> Seq<char> {
    "`"@ + name + "` would be an open relay: a fetch opened to anyone must be origin-scoped (`"@ + name
        + "=fetch:<origin>`)"@
}

/// Whether the name is among the public ones.
pub open spec fn is_public(name: Seq<char>, public: Seq<Seq<char>>) -> bool {
    public.contains(name)
}

/// The first fetch service that is opened to anyone and fetches from anywhere.
pub open spec fn first_open_relay(
    services: Seq<(Seq<char>, Option<Seq<char>>)>,
    public: Seq<Seq<char>>,
) -> Option<Seq<char>>
    decreases services.len(),
{
    if services.len() == 0 {
        None
    } else {
        match first_open_relay(services.drop_last(), public) {
            Some(name) => Some(name),
            None => if services.last().1 is None && is_public(services.last().0, public) {
                Some(services.last().0)
            } else {
                None
            },
        }
    }
}

impl FetchScope {
    /// Take the fetch services out of the requested entries: each becomes its own instance, which holds
    /// its own origin and no other. The rest is left in its order. An entry that names no service is
    /// refused, and so is an origin that is no URL; then nothing is taken out.
    pub fn extract(requested: &mut Vec<String>) -> (scope: Result<FetchScope, String>)
        ensures
            ({
                let entries = text::texts(old(requested)@);
                let routes = taken(entries, FETCH_TARGET@);
                match scope {
                    Ok(scope) => {
                        &&& first_bare(entries) is None
                        &&& forall|i: int|
                            0 <= i < routes.len() ==> is_origin((#[trigger] routes[i]).1)
                        &&& scope@ == fetches(entries)
                        &&& text::texts(final(requested)@) == passed(entries, FETCH_TARGET@)
                    },
                    Err(line) => {
                        &&& *final(requested) == *old(requested)
                        &&& match first_bare(entries) {
                            Some(entry) => line@ == serving::bare_entry_message(entry),
                            None => exists|i: int|
                                0 <= i < routes.len() && !is_origin((#[trigger] routes[i]).1)
                                    && line@ == bad_origin_words(routes[i].0, routes[i].1)
                                    && forall|j: int|
                                    0 <= j < i ==> is_origin((#[trigger] routes[j]).1),
                        }
                    },
                }
            }),
    {
        let split = match split(requested, FETCH_TARGET) {
            Ok(split) => split,
            Err(line) => {
                return Err(line);
            },
        };
        let ghost routes = taken(text::texts(requested@), FETCH_TARGET@);
        let mut services: Vec<FetchService> = Vec::new();
        let mut i: usize = 0;
        while i < split.taken.len()
            invariant
                i <= split.taken.len(),
                services.len() == i,
                *requested == *old(requested),
                first_bare(text::texts(requested@)) is None,
                routes == taken(text::texts(requested@), FETCH_TARGET@),
                routes == route_views(split.taken@),
                forall|j: int| 0 <= j < i ==> is_origin((#[trigger] routes[j]).1),
                forall|j: int|
                    0 <= j < i ==> (#[trigger] fetch_views(services@)[j]) == (
                        routes[j].0,
                        origin_of(routes[j].1),
                    ),
            decreases split.taken.len() - i,
        {
            let ghost before = services@;
            assert(routes[i as int] == (split.taken@[i as int].name@, split.taken@[i as int].rest@));
            let rest = split.taken[i].rest.as_str();
            let origin = if rest.is_empty() {
                None
            } else {
                match http::parse_url(rest) {
                    None => Some(rest.to_owned()),
                    Some(fault) => {
                        let mut line = "`".to_owned();
                        line.append(split.taken[i].name.as_str());
                        line.append("=fetch:");
                        line.append(rest);
                        line.append("` names no origin to fetch from: ");
                        line.append(fault.as_str());
                        assert(!is_origin(routes[i as int].1));
                        return Err(line);
                    },
                }
            };
            services.push(FetchService { name: split.taken[i].name.clone(), origin });
            assert forall|j: int| 0 <= j < i + 1 implies (#[trigger] fetch_views(services@)[j]) == (
                routes[j].0,
                origin_of(routes[j].1),
            ) by {
                if j < i {
                    assert(fetch_views(services@)[j] == fetch_views(before)[j]);
                }
            }
            i = i + 1;
        }
        assert(fetch_views(services@) =~= fetches(text::texts(requested@)));
        *requested = split.passed;
        Ok(FetchScope { services })
    }

    /// The services, in the order they were requested.
    pub fn services(&self) -> (services: &Vec<FetchService>)
        ensures
            fetch_views(services@) == self@,
    {
        &self.services
    }

    /// Refuse a fetch that is opened to anyone and names no origin: it would be an open relay. Each
    /// service is asked about its own scope, so one that names an origin hides no other.
    pub fn refuse_open_relay(&self, public: &Vec<String>) -> (refused: Result<(), String>)
        ensures
            match refused {
                Ok(()) => first_open_relay(self@, text::texts(public@)) is None,
                Err(line) => first_open_relay(self@, text::texts(public@)) is Some && line@
                    == open_relay_words(first_open_relay(self@, text::texts(public@))->0),
            },
    {
        let ghost all = self@;
        let ghost open = text::texts(public@);
        let mut i: usize = 0;
        while i < self.services.len()
            invariant
                i <= self.services.len(),
                all == fetch_views(self.services@),
                open == text::texts(public@),
                first_open_relay(all.take(i as int), open) is None,
            decreases self.services.len() - i,
        {
            assert(all.take(i + 1).drop_last() =~= all.take(i as int));
            if self.services[i].origin.is_none() && text::holds(
                public,
                self.services[i].name.as_str(),
            ) {
                proof {
                    lemma_open_relay_stays(all, open, i + 1);
                }
                let name = self.services[i].name.as_str();
                let mut line = "`".to_owned();
                line.append(name);
                line.append(
                    "` would be an open relay: a fetch opened to anyone must be origin-scoped (`",
                );
                line.append(name);
                line.append("=fetch:<origin>`)");
                return Err(line);
            }
            i = i + 1;
        }
        assert(all.take(i as int) =~= all);
        Ok(())
    }
}

/// An open relay found in the front stays the first one.
proof fn lemma_open_relay_stays(
    services: Seq<(Seq<char>, Option<Seq<char>>)>,
    public: Seq<Seq<char>>,
    n: int,
)
    requires
        0 <= n <= services.len(),
        first_open_relay(services.take(n), public) is Some,
    ensures
        first_open_relay(services, public) == first_open_relay(services.take(n), public),
    decreases services.len() - n,
{
    if n < services.len() {
        assert(services.take(n + 1).drop_last() =~= services.take(n));
        lemma_open_relay_stays(services, public, n + 1);
    } else {
        assert(services.take(n) =~= services);
    }
}

/// A receive service: the name it is served under, and the directory what is pushed to it lands in.
#[derive(Debug)]
pub struct RecvService {
    pub name: String,
    pub out: String,
}

/// The receive services, as values.
pub open spec fn recv_views(services: Seq<RecvService>) -> Seq<(Seq<char>, Seq<char>)> {
    services.map_values(|s: RecvService| (s.name@, s.out@))
}

/// The directory of a receive service, by what stands after its scheme: here, where nothing does.
pub open spec fn out_of(rest: Seq<char>) -> Seq<char> {
    if rest.len() == 0 {
        "."@
    } else {
        rest
    }
}

/// The receive services of the requested entries: each with the directory its own entry gives it.
pub open spec fn receives(entries: Seq<Seq<char>>) -> Seq<(Seq<char>, Seq<char>)> {
    taken(entries, RECV_TARGET@).map_values(
        |route: (Seq<char>, Seq<char>)| (route.0, out_of(route.1)),
    )
}

/// Take the receive services out of the requested entries, each with its own directory. The rest is left
/// in its order. An entry that names no service is refused; then nothing is taken out.
pub fn extract_recv_services(requested: &mut Vec<String>) -> (services: Result<
    Vec<RecvService>,
    String,
>)
    ensures
        ({
            let entries = text::texts(old(requested)@);
            match services {
                Ok(services) => first_bare(entries) is None && recv_views(services@) == receives(
                    entries,
                ) && text::texts(final(requested)@) == passed(entries, RECV_TARGET@),
                Err(line) => *final(requested) == *old(requested) && first_bare(entries) is Some
                    && line@ == serving::bare_entry_message(first_bare(entries)->0),
            }
        }),
{
    let split = match split(requested, RECV_TARGET) {
        Ok(split) => split,
        Err(line) => {
            return Err(line);
        },
    };
    let ghost routes = taken(text::texts(requested@), RECV_TARGET@);
    let mut services: Vec<RecvService> = Vec::new();
    let mut i: usize = 0;
    while i < split.taken.len()
        invariant
            i <= split.taken.len(),
            services.len() == i,
            routes == route_views(split.taken@),
            forall|j: int|
                0 <= j < i ==> (#[trigger] recv_views(services@)[j]) == (
                    routes[j].0,
                    out_of(routes[j].1),
                ),
        decreases split.taken.len() - i,
    {
        let ghost before = services@;
        assert(routes[i as int] == (split.taken@[i as int].name@, split.taken@[i as int].rest@));
        let rest = split.taken[i].rest.as_str();
        let out = if rest.is_empty() {
            ".".to_owned()
        } else {
            rest.to_owned()
        };
        services.push(RecvService { name: split.taken[i].name.clone(), out });
        assert forall|j: int| 0 <= j < i + 1 implies (#[trigger] recv_views(services@)[j]) == (
            routes[j].0,
            out_of(routes[j].1),
        ) by {
            if j < i {
                assert(recv_views(services@)[j] == recv_views(before)[j]);
            }
        }
        i = i + 1;
    }
    assert(recv_views(services@) =~= receives(text::texts(requested@)));
    *requested = split.passed;
    Ok(services)
}

/// A fetch opened to anyone holds an origin of its own, whatever else is served: where nothing is refused,
/// every public fetch names one.
pub proof fn a_public_fetch_names_its_origin(
    services: Seq<(Seq<char>, Option<Seq<char>>)>,
    public: Seq<Seq<char>>,
    i: int,
)
    requires
        first_open_relay(services, public) is None,
        0 <= i < services.len(),
        is_public(services[i].0, public),
    ensures
        services[i].1 is Some,
    decreases services.len(),
{
    let rest = services.drop_last();
    if i < rest.len() {
        a_public_fetch_names_its_origin(rest, public, i);
    }
}

/// A fetch that names its origin hides no open relay beside it: with it or without it the same one is
/// refused, wherever it stands.
pub proof fn a_scoped_fetch_hides_no_open_relay(
    before: Seq<(Seq<char>, Option<Seq<char>>)>,
    scoped: (Seq<char>, Option<Seq<char>>),
    after: Seq<(Seq<char>, Option<Seq<char>>)>,
    public: Seq<Seq<char>>,
)
    requires
        scoped.1 is Some,
    ensures
        first_open_relay(before.push(scoped) + after, public) == first_open_relay(
            before + after,
            public,
        ),
    decreases after.len(),
{
    if after.len() == 0 {
        assert(before.push(scoped) + after =~= before.push(scoped));
        assert(before.push(scoped).drop_last() =~= before);
        assert(before + after =~= before);
    } else {
        let rest = after.drop_last();
        a_scoped_fetch_hides_no_open_relay(before, scoped, rest, public);
        assert((before.push(scoped) + after).drop_last() =~= before.push(scoped) + rest);
        assert((before + after).drop_last() =~= before + rest);
    }
}

/// A service that was taken out is bound once: what is left of the requested entries, when both schemes
/// were taken out, holds neither.
pub proof fn what_is_left_holds_no_scheme_taken_out(entries: Seq<Seq<char>>)
    ensures
        ({
            let left = passed(passed(entries, FETCH_TARGET@), RECV_TARGET@);
            taken(left, FETCH_TARGET@).len() == 0 && taken(left, RECV_TARGET@).len() == 0
        }),
{
    let first = passed(entries, FETCH_TARGET@);
    taking_out_keeps_the_rest(entries, FETCH_TARGET@);
    taking_out_keeps_the_rest(first, RECV_TARGET@);
    lemma_taking_out_adds_none(first, RECV_TARGET@, FETCH_TARGET@);
}

/// Taking one scheme out leaves no more entries of another.
proof fn lemma_taking_out_adds_none(entries: Seq<Seq<char>>, scheme: Seq<char>, other: Seq<char>)
    ensures
        taken(passed(entries, scheme), other).len() <= taken(entries, other).len(),
    decreases entries.len(),
{
    if entries.len() > 0 {
        let rest = entries.drop_last();
        lemma_taking_out_adds_none(rest, scheme, other);
        if of_scheme(entries.last(), scheme) is None {
            assert(passed(rest, scheme).push(entries.last()).drop_last() =~= passed(rest, scheme));
        }
    }
}

/// Taking a scheme out loses nothing and adds nothing: every entry is either taken or passed on, and what
/// is passed on holds none of the scheme.
pub proof fn taking_out_keeps_the_rest(entries: Seq<Seq<char>>, scheme: Seq<char>)
    ensures
        taken(entries, scheme).len() + passed(entries, scheme).len() == entries.len(),
        taken(passed(entries, scheme), scheme).len() == 0,
        passed(passed(entries, scheme), scheme) == passed(entries, scheme),
    decreases entries.len(),
{
    if entries.len() > 0 {
        let rest = entries.drop_last();
        taking_out_keeps_the_rest(rest, scheme);
        if of_scheme(entries.last(), scheme) is None {
            assert(passed(rest, scheme).push(entries.last()).drop_last() =~= passed(rest, scheme));
        }
    }
}

/// An entry is of a scheme exactly where its target begins with it: `name=scheme rest` is taken as the name
/// and the rest, whatever stands in the rest; another target, and an entry without a name, is passed on as
/// it is.
pub proof fn an_entry_is_taken_by_the_scheme_of_its_target(
    name: Seq<char>,
    scheme: Seq<char>,
    rest: Seq<char>,
    target: Seq<char>,
    bare: Seq<char>,
)
    requires
        !name.contains('='),
        !bare.contains('='),
        !text::begins(target, scheme),
    ensures
        taken(seq![name + seq!['='] + (scheme + rest)], scheme) == seq![(name, rest)],
        passed(seq![name + seq!['='] + (scheme + rest)], scheme).len() == 0,
        taken(seq![name + seq!['='] + target], scheme).len() == 0,
        passed(seq![name + seq!['='] + target], scheme) == seq![name + seq!['='] + target],
        taken(seq![bare], scheme).len() == 0,
        passed(seq![bare], scheme) == seq![bare],
{
    let yes = name + seq!['='] + (scheme + rest);
    let no = name + seq!['='] + target;
    text::a_cut_undoes_a_join(name, '=', scheme + rest);
    text::a_cut_undoes_a_join(name, '=', target);
    text::a_cut_loses_nothing(bare, '=');
    text::a_prefix_comes_off_as_it_went_on(scheme, rest, target);
    lemma_one_entry(yes, scheme);
    lemma_one_entry(no, scheme);
    lemma_one_entry(bare, scheme);
}

proof fn lemma_one_entry(entry: Seq<char>, scheme: Seq<char>)
    ensures
        of_scheme(entry, scheme) matches Some(route) ==> taken(seq![entry], scheme) == seq![route]
            && passed(seq![entry], scheme).len() == 0,
        of_scheme(entry, scheme) is None ==> taken(seq![entry], scheme).len() == 0 && passed(
            seq![entry],
            scheme,
        ) == seq![entry],
{
    reveal_with_fuel(taken, 2);
    reveal_with_fuel(passed, 2);
    assert(seq![entry].drop_last() =~= Seq::<Seq<char>>::empty());
    if let Some(route) = of_scheme(entry, scheme) {
        assert(taken(seq![entry], scheme) =~= seq![route]);
    } else {
        assert(passed(seq![entry], scheme) =~= seq![entry]);
    }
}

/// Each entry is looked at by itself: what is taken and what is passed on of a list is what is of its first
/// entries, and then of the rest, in order.
pub proof fn each_entry_is_looked_at_by_itself(
    a: Seq<Seq<char>>,
    b: Seq<Seq<char>>,
    scheme: Seq<char>,
)
    ensures
        taken(a + b, scheme) == taken(a, scheme) + taken(b, scheme),
        passed(a + b, scheme) == passed(a, scheme) + passed(b, scheme),
    decreases b.len(),
{
    if b.len() == 0 {
        assert(a + b =~= a);
        assert(taken(a, scheme) + taken(b, scheme) =~= taken(a, scheme));
        assert(passed(a, scheme) + passed(b, scheme) =~= passed(a, scheme));
    } else {
        assert((a + b).drop_last() =~= a + b.drop_last());
        each_entry_is_looked_at_by_itself(a, b.drop_last(), scheme);
        assert(taken(a + b, scheme) =~= taken(a, scheme) + taken(b, scheme));
        assert(passed(a + b, scheme) =~= passed(a, scheme) + passed(b, scheme));
    }
}

/// Each service holds what its own entry gives it: a fetch the origin after its scheme, and none where there
/// is none; a receiver the directory after its scheme, and this one where there is none. The schemes are
/// `fetch:` and `recv:`.
pub proof fn each_service_holds_what_its_entry_gives_it(name: Seq<char>, rest: Seq<char>)
    requires
        !name.contains('='),
    ensures
        rest.len() > 0 ==> fetches(seq![name + seq!['='] + ("fetch:"@ + rest)]) == seq![
            (name, Some(rest)),
        ],
        fetches(seq![name + seq!['='] + ("fetch:"@ + Seq::empty())]) == seq![
            (name, None::<Seq<char>>),
        ],
        rest.len() > 0 ==> receives(seq![name + seq!['='] + ("recv:"@ + rest)]) == seq![(name, rest)],
        receives(seq![name + seq!['='] + ("recv:"@ + Seq::empty())]) == seq![(name, "."@)],
{
    let none = Seq::<char>::empty();
    text::a_cut_undoes_a_join(name, '=', "fetch:"@ + rest);
    text::a_cut_undoes_a_join(name, '=', "fetch:"@ + none);
    text::a_cut_undoes_a_join(name, '=', "recv:"@ + rest);
    text::a_cut_undoes_a_join(name, '=', "recv:"@ + none);
    text::a_prefix_comes_off_as_it_went_on("fetch:"@, rest, none);
    text::a_prefix_comes_off_as_it_went_on("fetch:"@, none, none);
    text::a_prefix_comes_off_as_it_went_on("recv:"@, rest, none);
    text::a_prefix_comes_off_as_it_went_on("recv:"@, none, none);
    lemma_one_entry(name + seq!['='] + ("fetch:"@ + rest), "fetch:"@);
    lemma_one_entry(name + seq!['='] + ("fetch:"@ + none), "fetch:"@);
    lemma_one_entry(name + seq!['='] + ("recv:"@ + rest), "recv:"@);
    lemma_one_entry(name + seq!['='] + ("recv:"@ + none), "recv:"@);
    if rest.len() > 0 {
        assert(fetches(seq![name + seq!['='] + ("fetch:"@ + rest)]) =~= seq![(name, Some(rest))]);
        assert(receives(seq![name + seq!['='] + ("recv:"@ + rest)]) =~= seq![(name, rest)]);
    }
    assert(fetches(seq![name + seq!['='] + ("fetch:"@ + none)]) =~= seq![
        (name, None::<Seq<char>>),
    ]);
    assert(receives(seq![name + seq!['='] + ("recv:"@ + none)]) =~= seq![(name, "."@)]);
}

/// Every taken service keeps its own scope, in the order it was taken.
pub proof fn every_service_keeps_its_own_scope(entries: Seq<Seq<char>>)
    ensures
        fetches(entries).len() == taken(entries, "fetch:"@).len(),
        forall|i: int|
            0 <= i < fetches(entries).len() ==> (#[trigger] fetches(entries)[i]).0 == taken(
                entries,
                "fetch:"@,
            )[i].0 && fetches(entries)[i].1 == if taken(entries, "fetch:"@)[i].1.len() == 0 {
                None
            } else {
                Some(taken(entries, "fetch:"@)[i].1)
            },
        receives(entries).len() == taken(entries, "recv:"@).len(),
        forall|i: int|
            0 <= i < receives(entries).len() ==> (#[trigger] receives(entries)[i]).0 == taken(
                entries,
                "recv:"@,
            )[i].0 && receives(entries)[i].1 == if taken(entries, "recv:"@)[i].1.len() == 0 {
                "."@
            } else {
                taken(entries, "recv:"@)[i].1
            },
{
}

/// The first entry without a name is the one refused, and there is one exactly where some entry has no `=`.
pub proof fn the_first_bare_entry_is_refused(entries: Seq<Seq<char>>) -> (i: int)
    ensures
        first_bare(entries) matches Some(entry) ==> 0 <= i < entries.len() && entry == entries[i]
            && !entry.contains('=') && forall|j: int|
            0 <= j < i ==> (#[trigger] entries[j]).contains('='),
        first_bare(entries) is None ==> forall|j: int|
            0 <= j < entries.len() ==> (#[trigger] entries[j]).contains('='),
    decreases entries.len(),
{
    if entries.len() == 0 {
        0
    } else {
        let rest = entries.drop_last();
        let k = the_first_bare_entry_is_refused(rest);
        assert(forall|j: int| 0 <= j < rest.len() ==> rest[j] == #[trigger] entries[j]);
        if first_bare(rest) is Some {
            k
        } else {
            entries.len() - 1
        }
    }
}

/// An open relay is refused wherever it stands: one is found exactly where some fetch service is public and
/// names no origin, and the one named is such a service.
pub proof fn an_open_relay_is_found_wherever_it_stands(
    services: Seq<(Seq<char>, Option<Seq<char>>)>,
    public: Seq<Seq<char>>,
)
    ensures
        first_open_relay(services, public) is Some <==> exists|i: int|
            0 <= i < services.len() && (#[trigger] services[i]).1 is None && public.contains(
                services[i].0,
            ),
        first_open_relay(services, public) matches Some(name) ==> public.contains(name)
            && services.contains((name, None)),
        forall|name: Seq<char>|
            text::mentions(#[trigger] open_relay_words(name), name + "=fetch:<origin>"@),
    decreases services.len(),
{
    if services.len() > 0 {
        let rest = services.drop_last();
        let last = services.len() - 1;
        an_open_relay_is_found_wherever_it_stands(rest, public);
        if first_open_relay(rest, public) is Some {
            let i = choose|i: int|
                0 <= i < rest.len() && (#[trigger] rest[i]).1 is None && public.contains(rest[i].0);
            assert(services[i] == rest[i]);
            let name = first_open_relay(rest, public)->0;
            let k = choose|k: int| 0 <= k < rest.len() && rest[k] == (name, None::<Seq<char>>);
            assert(services[k] == rest[k]);
        } else {
            assert forall|i: int| 0 <= i < rest.len() implies !((#[trigger] services[i]).1 is None
                && public.contains(services[i].0)) by {
                assert(services[i] == rest[i]);
            }
            assert(services[last] == services.last());
        }
    }
    assert forall|name: Seq<char>|
        text::mentions(#[trigger] open_relay_words(name), name + "=fetch:<origin>"@) by {
        let front = "`"@ + name
            + "` would be an open relay: a fetch opened to anyone must be origin-scoped (`"@;
        reveal_strlit("=fetch:<origin>`)");
        reveal_strlit("=fetch:<origin>");
        reveal_strlit("`)");
        assert("=fetch:<origin>`)"@ =~= "=fetch:<origin>"@ + "`)"@);
        assert(open_relay_words(name) =~= front + (name + "=fetch:<origin>"@) + "`)"@);
        text::lemma_mentions(front, name + "=fetch:<origin>"@, "`)"@);
    }
}

} // verus!
