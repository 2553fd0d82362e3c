//! Pages of a list, one after the other, are the list.
use vstd::prelude::*;

use crate::api::proto::{
    ListSubscriptionsResponse, ListTopicsResponse, NamesPage, SubscriptionProto, TopicProto,
};
use crate::api::resources;
use crate::api::subscriber;
use crate::api::subscriber::ServiceState;
use crate::api::topic_lists;
use crate::subscriptions::subscription_manager;
use crate::subscriptions::subscription_manager::SubscriptionEntry;
use crate::subscriptions::subscription_name;
use crate::text;
use crate::topics::topic::TopicState;
use crate::topics::topic_name::TopicNameView;

verus! {

/// Whether pages with these tokens start at these places of a list where each is asked for with the
/// token of the one before it: the first one at the front, and the last one with no token.
pub open spec fn is_chain(offsets: Seq<nat>, tokens: Seq<Seq<char>>) -> bool {
    &&& offsets.len() == tokens.len()
    &&& offsets.len() > 0
    &&& offsets[0] == 0
    &&& tokens.last().len() == 0
    &&& forall|i: int|
        0 <= i < tokens.len() - 1 ==> (#[trigger] tokens[i]).len() > 0 && text::number_read(
            tokens[i],
        ) == Some(offsets[i + 1])
}

/// The parts one after the other.
pub open spec fn joined<T>(parts: Seq<Seq<T>>) -> Seq<T>
    decreases parts.len(),
{
    if parts.len() == 0 {
        Seq::empty()
    } else {
        joined(parts.drop_last()) + parts.last()
    }
}

/// Whether the part is the page of a list of the length that starts at the offset, each item of which
/// is right for its place.
spec fn is_part<T>(
    part: Seq<T>,
    token: Seq<char>,
    len: nat,
    size: usize,
    offset: nat,
    right: spec_fn(T, int) -> bool,
) -> bool {
    let start = topic_lists::start_of_page(len, size, offset);
    &&& part.len() == topic_lists::end_of_page(len, size, offset) - start
    &&& forall|j: int| 0 <= j < part.len() ==> right(#[trigger] part[j], start + j)
    &&& token == topic_lists::token_after(len, size, offset)
}

/// Pages up to one of a chain hold what stands before where the next one starts.
proof fn lemma_chain<T>(
    parts: Seq<Seq<T>>,
    offsets: Seq<nat>,
    tokens: Seq<Seq<char>>,
    len: nat,
    size: usize,
    right: spec_fn(T, int) -> bool,
    k: int,
)
    requires
        is_chain(offsets, tokens),
        parts.len() == tokens.len(),
        len <= u64::MAX,
        size > 0,
        0 <= k <= parts.len(),
        forall|i: int|
            0 <= i < parts.len() ==> is_part(
                #[trigger] parts[i],
                tokens[i],
                len,
                size,
                offsets[i],
                right,
            ),
    ensures
        joined(parts.take(k)).len() == if k < parts.len() {
            offsets[k]
        } else {
            len
        },
        k < parts.len() ==> offsets[k] <= len,
        forall|p: int|
            0 <= p < joined(parts.take(k)).len() ==> right(#[trigger] joined(parts.take(k))[p], p),
    decreases k,
{
    if k > 0 {
        let i: int = k - 1;
        lemma_chain(parts, offsets, tokens, len, size, right, i);
        let before = joined(parts.take(i));
        let after = joined(parts.take(k));
        assert(parts.take(k).drop_last() =~= parts.take(i));
        assert(parts.take(k).last() == parts[i]);
        assert(is_part(parts[i], tokens[i], len, size, offsets[i], right));
        let end = topic_lists::end_of_page(len, size, offsets[i]);
        if i < parts.len() - 1 {
            assert(tokens[i].len() > 0);
            text::law_decimal_reads_back(end as u64);
        } else {
            assert(tokens[i] == tokens.last());
            text::lemma_decimal_value(end as nat);
        }
        assert forall|p: int| 0 <= p < after.len() implies right(#[trigger] after[p], p) by {
            if p < before.len() {
                assert(after[p] == before[p]);
            } else {
                assert(after[p] == parts[i][p - before.len()]);
                assert(right(parts[i][p - before.len()], offsets[i] + (p - before.len())));
            }
        }
    }
}

/// Pages of a chain hold the list.
proof fn lemma_whole_chain<T>(
    parts: Seq<Seq<T>>,
    offsets: Seq<nat>,
    tokens: Seq<Seq<char>>,
    len: nat,
    size: usize,
    right: spec_fn(T, int) -> bool,
)
    requires
        is_chain(offsets, tokens),
        parts.len() == tokens.len(),
        len <= u64::MAX,
        size > 0,
        forall|i: int|
            0 <= i < parts.len() ==> is_part(
                #[trigger] parts[i],
                tokens[i],
                len,
                size,
                offsets[i],
                right,
            ),
    ensures
        joined(parts).len() == len,
        forall|p: int| 0 <= p < joined(parts).len() ==> right(#[trigger] joined(parts)[p], p),
{
    lemma_chain(parts, offsets, tokens, len, size, right, parts.len() as int);
    assert(parts.take(parts.len() as int) =~= parts);
}

/// Whether the places are those of what belongs to a project, in order, and no others.
pub open spec fn are_places_of(places: Seq<int>, len: nat, belongs: spec_fn(int) -> bool) -> bool {
    &&& forall|a: int, b: int| 0 <= a < b < places.len() ==> #[trigger] places[a] < #[trigger] places[b]
    &&& forall|a: int| 0 <= a < places.len() ==> 0 <= #[trigger] places[a] < len
    &&& forall|i: int| 0 <= i < len ==> (#[trigger] belongs(i) <==> places.contains(i))
}

/// Whether the subscription at the place is one of the project.
pub open spec fn is_of_project(entries: Seq<SubscriptionEntry>, project: Seq<char>) -> spec_fn(
    int,
) -> bool {
    |i: int| entries[i].state.info.name@.project_id == project
}

/// Whether the topic at the place is one of the project.
pub open spec fn is_topic_of_project(topics: Seq<TopicState>, project: Seq<char>) -> spec_fn(
    int,
) -> bool {
    |i: int|
        topics[i].info.name@ matches TopicNameView::Named { project_id, topic_id } && project_id
            == project
}

/// The places of the subscriptions of a project.
proof fn lemma_project_places(entries: Seq<SubscriptionEntry>, project: Seq<char>)
    ensures
        are_places_of(
            subscription_manager::project_places(entries, project),
            entries.len(),
            is_of_project(entries, project),
        ),
    decreases entries.len(),
{
    if entries.len() > 0 {
        let rest = entries.drop_last();
        let last: int = entries.len() - 1;
        let front = subscription_manager::project_places(rest, project);
        let all = subscription_manager::project_places(entries, project);
        let of = is_of_project(entries, project);
        lemma_project_places(rest, project);
        assert forall|i: int| 0 <= i < entries.len() implies (#[trigger] of(i) <==> all.contains(
            i,
        )) by {
            if i < last {
                assert(is_of_project(rest, project)(i) == of(i));
                if front.contains(i) {
                    let a = choose|a: int| 0 <= a < front.len() && front[a] == i;
                    assert(all[a] == i);
                }
            } else if of(i) {
                assert(all[all.len() - 1] == i);
            }
        }
    }
}

/// The places of the topics of a project.
proof fn lemma_topic_places(topics: Seq<TopicState>, project: Seq<char>)
    ensures
        are_places_of(
            topic_lists::topic_places(topics, project),
            topics.len(),
            is_topic_of_project(topics, project),
        ),
    decreases topics.len(),
{
    if topics.len() > 0 {
        let rest = topics.drop_last();
        let last: int = topics.len() - 1;
        let front = topic_lists::topic_places(rest, project);
        let all = topic_lists::topic_places(topics, project);
        let of = is_topic_of_project(topics, project);
        lemma_topic_places(rest, project);
        assert forall|i: int| 0 <= i < topics.len() implies (#[trigger] of(i) <==> all.contains(
            i,
        )) by {
            if i < last {
                assert(is_topic_of_project(rest, project)(i) == of(i));
                if front.contains(i) {
                    let a = choose|a: int| 0 <= a < front.len() && front[a] == i;
                    assert(all[a] == i);
                }
            } else if of(i) {
                assert(all[all.len() - 1] == i);
            }
        }
    }
}

/// The subscriptions of pages.
pub open spec fn subscription_parts(pages: Seq<ListSubscriptionsResponse>) -> Seq<
    Seq<SubscriptionProto>,
> {
    Seq::new(pages.len(), |i: int| pages[i].subscriptions@)
}

/// The tokens of pages of subscriptions.
pub open spec fn subscription_tokens(pages: Seq<ListSubscriptionsResponse>) -> Seq<Seq<char>> {
    Seq::new(pages.len(), |i: int| pages[i].next_page_token@)
}

/// Whether the subscription is the one at this place of the places, as it is given to clients.
spec fn is_listed(st: ServiceState, places: Seq<int>) -> spec_fn(SubscriptionProto, int) -> bool {
    |s: SubscriptionProto, p: int|
        resources::is_resource_of(
            s,
            st.subscriptions[places[p]].state.info,
            st.subscriptions[places[p]].topic,
        )
}

/// Who asks for page after page of the subscriptions of a project, each with the token of the one
/// before, until there is no token, is given each subscription of the project exactly once, in the
/// order in which they stand, and no other.
pub proof fn law_pages_hold_each_subscription_once(
    st: ServiceState,
    pages: Seq<ListSubscriptionsResponse>,
    offsets: Seq<nat>,
    size: usize,
    project: Seq<char>,
)
    requires
        size > 0,
        st.subscriptions.len() <= u64::MAX,
        is_chain(offsets, subscription_tokens(pages)),
        forall|i: int|
            0 <= i < pages.len() ==> subscriber::is_page(
                st,
                #[trigger] pages[i],
                size,
                offsets[i],
                project,
            ),
    ensures
        exists|places: Seq<int>|
            {
                &&& #[trigger] are_places_of(
                    places,
                    st.subscriptions.len(),
                    is_of_project(st.subscriptions, project),
                )
                &&& joined(subscription_parts(pages)).len() == places.len()
                &&& forall|p: int|
                    0 <= p < places.len() ==> resources::is_resource_of(
                        #[trigger] joined(subscription_parts(pages))[p],
                        st.subscriptions[places[p]].state.info,
                        st.subscriptions[places[p]].topic,
                    )
            },
{
    let places = subscription_manager::project_places(st.subscriptions, project);
    let parts = subscription_parts(pages);
    let tokens = subscription_tokens(pages);
    let right = is_listed(st, places);
    lemma_project_places(st.subscriptions, project);
    lemma_places_fit(places, st.subscriptions.len());
    assert forall|i: int| 0 <= i < parts.len() implies is_part(
        #[trigger] parts[i],
        tokens[i],
        places.len(),
        size,
        offsets[i],
        right,
    ) by {
        assert(subscriber::is_page(st, pages[i], size, offsets[i], project));
        let start = topic_lists::start_of_page(places.len(), size, offsets[i]);
        let end = topic_lists::end_of_page(places.len(), size, offsets[i]);
        let listed = places.subrange(start, end);
        assert forall|j: int| 0 <= j < parts[i].len() implies right(
            #[trigger] parts[i][j],
            start + j,
        ) by {
            assert(listed[j] == places[start + j]);
            assert(resources::is_resource_of(
                pages[i].subscriptions@[j],
                st.subscriptions[listed[j]].state.info,
                st.subscriptions[listed[j]].topic,
            ));
        }
    }
    lemma_whole_chain(parts, offsets, tokens, places.len(), size, right);
    assert forall|p: int| 0 <= p < places.len() implies resources::is_resource_of(
        #[trigger] joined(parts)[p],
        st.subscriptions[places[p]].state.info,
        st.subscriptions[places[p]].topic,
    ) by {
        assert(right(joined(parts)[p], p));
    }
}

/// There are no more places than there is to be at.
proof fn lemma_places_fit(places: Seq<int>, len: nat)
    requires
        forall|a: int, b: int|
            0 <= a < b < places.len() ==> #[trigger] places[a] < #[trigger] places[b],
        forall|a: int| 0 <= a < places.len() ==> 0 <= #[trigger] places[a] < len,
    ensures
        places.len() <= len,
        places.len() > 0 ==> places.last() >= places.len() - 1,
    decreases places.len(),
{
    if places.len() > 1 {
        let front = places.drop_last();
        assert forall|a: int| 0 <= a < front.len() implies 0 <= #[trigger] front[a] < len by {
            assert(front[a] == places[a]);
        }
        lemma_places_fit(front, len);
        assert(places[places.len() - 2] < places[places.len() - 1]);
    } else if places.len() == 1 {
        assert(0 <= places[0] < len);
    }
}

/// The topics of pages.
pub open spec fn topic_parts(pages: Seq<ListTopicsResponse>) -> Seq<Seq<TopicProto>> {
    Seq::new(pages.len(), |i: int| pages[i].topics@)
}

/// The tokens of pages of topics.
pub open spec fn topic_tokens(pages: Seq<ListTopicsResponse>) -> Seq<Seq<char>> {
    Seq::new(pages.len(), |i: int| pages[i].next_page_token@)
}

/// Whether the topic is the one at this place of the places, as it is given to clients.
spec fn is_topic_listed(st: ServiceState, places: Seq<int>) -> spec_fn(TopicProto, int) -> bool {
    |t: TopicProto, p: int| resources::is_topic_resource_of(t, st.topics[places[p]].info)
}

/// Who asks for page after page of the topics of a project, each with the token of the one before,
/// until there is no token, is given each topic of the project exactly once, in the order in which
/// they stand, and no other.
pub proof fn law_pages_hold_each_topic_once(
    st: ServiceState,
    pages: Seq<ListTopicsResponse>,
    offsets: Seq<nat>,
    size: usize,
    project: Seq<char>,
)
    requires
        size > 0,
        st.topics.len() <= u64::MAX,
        is_chain(offsets, topic_tokens(pages)),
        forall|i: int|
            0 <= i < pages.len() ==> topic_lists::is_topics_page(
                st,
                #[trigger] pages[i],
                size,
                offsets[i],
                project,
            ),
    ensures
        exists|places: Seq<int>|
            {
                &&& #[trigger] are_places_of(
                    places,
                    st.topics.len(),
                    is_topic_of_project(st.topics, project),
                )
                &&& joined(topic_parts(pages)).len() == places.len()
                &&& forall|p: int|
                    0 <= p < places.len() ==> resources::is_topic_resource_of(
                        #[trigger] joined(topic_parts(pages))[p],
                        st.topics[places[p]].info,
                    )
            },
{
    let places = topic_lists::topic_places(st.topics, project);
    let parts = topic_parts(pages);
    let tokens = topic_tokens(pages);
    let right = is_topic_listed(st, places);
    lemma_topic_places(st.topics, project);
    lemma_places_fit(places, st.topics.len());
    assert forall|i: int| 0 <= i < parts.len() implies is_part(
        #[trigger] parts[i],
        tokens[i],
        places.len(),
        size,
        offsets[i],
        right,
    ) by {
        assert(topic_lists::is_topics_page(st, pages[i], size, offsets[i], project));
        let start = topic_lists::start_of_page(places.len(), size, offsets[i]);
        let end = topic_lists::end_of_page(places.len(), size, offsets[i]);
        let listed = places.subrange(start, end);
        assert forall|j: int| 0 <= j < parts[i].len() implies right(
            #[trigger] parts[i][j],
            start + j,
        ) by {
            assert(listed[j] == places[start + j]);
            assert(resources::is_topic_resource_of(
                pages[i].topics@[j],
                st.topics[listed[j]].info,
            ));
        }
    }
    lemma_whole_chain(parts, offsets, tokens, places.len(), size, right);
    assert forall|p: int| 0 <= p < places.len() implies resources::is_topic_resource_of(
        #[trigger] joined(parts)[p],
        st.topics[places[p]].info,
    ) by {
        assert(right(joined(parts)[p], p));
    }
}

/// The names of pages.
pub open spec fn name_parts(pages: Seq<NamesPage>) -> Seq<Seq<String>> {
    Seq::new(pages.len(), |i: int| pages[i].names@)
}

/// The tokens of pages of names.
pub open spec fn name_tokens(pages: Seq<NamesPage>) -> Seq<Seq<char>> {
    Seq::new(pages.len(), |i: int| pages[i].next_page_token@)
}

/// Whether the text is the name of the subscription of the topic at this place.
spec fn is_name_listed(t: TopicState) -> spec_fn(String, int) -> bool {
    |s: String, p: int| s@ == subscription_name::subscription_name_text(t.subscriptions[p])
}

/// Who asks for page after page of the subscriptions of a topic, each with the token of the one
/// before, until there is no token, is given the names of all of them, in order.
pub proof fn law_pages_hold_each_name_once(
    t: TopicState,
    pages: Seq<NamesPage>,
    offsets: Seq<nat>,
    size: usize,
)
    requires
        size > 0,
        t.subscriptions.len() <= u64::MAX,
        is_chain(offsets, name_tokens(pages)),
        forall|i: int|
            0 <= i < pages.len() ==> topic_lists::is_names_page(
                t,
                #[trigger] pages[i],
                size,
                offsets[i],
            ),
    ensures
        joined(name_parts(pages)).len() == t.subscriptions.len(),
        forall|p: int|
            0 <= p < t.subscriptions.len() ==> (#[trigger] joined(name_parts(pages))[p])@
                == subscription_name::subscription_name_text(t.subscriptions[p]),
{
    let parts = name_parts(pages);
    let tokens = name_tokens(pages);
    let right = is_name_listed(t);
    let len = t.subscriptions.len();
    assert forall|i: int| 0 <= i < parts.len() implies is_part(
        #[trigger] parts[i],
        tokens[i],
        len,
        size,
        offsets[i],
        right,
    ) by {
        assert(topic_lists::is_names_page(t, pages[i], size, offsets[i]));
        let start = topic_lists::start_of_page(len, size, offsets[i]);
        let end = topic_lists::end_of_page(len, size, offsets[i]);
        let listed = t.subscriptions.subrange(start, end);
        assert forall|j: int| 0 <= j < parts[i].len() implies right(
            #[trigger] parts[i][j],
            start + j,
        ) by {
            assert(listed[j] == t.subscriptions[start + j]);
            assert(pages[i].names@[j]@ == subscription_name::subscription_name_text(listed[j]));
        }
    }
    lemma_whole_chain(parts, offsets, tokens, len, size, right);
    assert forall|p: int| 0 <= p < len implies (#[trigger] joined(parts)[p])@
        == subscription_name::subscription_name_text(t.subscriptions[p]) by {
        assert(right(joined(parts)[p], p));
    }
}

/// A page holds no more than its size, and as many where another page follows it.
pub proof fn law_page_is_full_where_one_follows(
    st: ServiceState,
    page: ListSubscriptionsResponse,
    topics: ListTopicsResponse,
    t: TopicState,
    names: NamesPage,
    size: usize,
    offset: nat,
    project: Seq<char>,
)
    ensures
        subscriber::is_page(st, page, size, offset, project) ==> page.subscriptions@.len() <= size
            && (page.next_page_token@.len() > 0 ==> page.subscriptions@.len() == size),
        topic_lists::is_topics_page(st, topics, size, offset, project) ==> topics.topics@.len() <= size
            && (topics.next_page_token@.len() > 0 ==> topics.topics@.len() == size),
        topic_lists::is_names_page(t, names, size, offset) ==> names.names@.len() <= size && (
        names.next_page_token@.len() > 0 ==> names.names@.len() == size),
{
}

} // verus!
