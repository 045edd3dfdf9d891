//! What changed between two snapshots, category by category, and the
//! notifications that tell the user of it.

use crate::app_data::{
    PullRequestCategory, PullRequestItem, PullRequestItemView, PullRequestsData,
    PullRequestsDataView,
};
use crate::event_names::FilterDataUpdatedPayload;
use vstd::prelude::*;
use vstd::string::StringExecFns;

verus! {

/// The category under which the pull request `id` stands in `previous`; `None`
/// where it does not stand there.
pub open spec fn previous_category(previous: Seq<PullRequestItemView>, id: u64) -> Option<
    PullRequestCategory,
>
    decreases previous.len(),
{
    if previous.len() == 0 {
        None
    } else if previous.first().id == id {
        Some(previous.first().category)
    } else {
        previous_category(previous.drop_first(), id)
    }
}

/// Whether `item` is new against `previous` or stands there under another
/// category.
pub open spec fn is_transition(previous: Seq<PullRequestItemView>, item: PullRequestItemView) -> bool {
    previous_category(previous, item.id) != Some(item.category)
}

/// Holds of the pull requests of `category` that are new or came from another
/// category.
pub open spec fn entering(
    previous: Seq<PullRequestItemView>,
    category: PullRequestCategory,
) -> spec_fn(PullRequestItemView) -> bool {
    |item: PullRequestItemView| item.category == category && is_transition(previous, item)
}

/// The pull requests of `new` that entered `category`, in the order of `new`.
pub open spec fn entered(
    previous: PullRequestsDataView,
    new: PullRequestsDataView,
    category: PullRequestCategory,
) -> Seq<PullRequestItemView> {
    new.pull_requests.filter(entering(previous.pull_requests, category))
}

/// The pull requests that entered one category.
#[derive(Debug)]
pub struct CategoryChanges {
    pub category: PullRequestCategory,
    pub pull_requests: Vec<PullRequestItem>,
}

pub struct CategoryChangesView {
    pub category: PullRequestCategory,
    pub pull_requests: Seq<PullRequestItemView>,
}

impl View for CategoryChanges {
    type V = CategoryChangesView;

    open spec fn view(&self) -> CategoryChangesView {
        CategoryChangesView {
            category: self.category,
            pull_requests: self.pull_requests.deep_view(),
        }
    }
}

impl DeepView for CategoryChanges {
    type V = CategoryChangesView;

    open spec fn deep_view(&self) -> CategoryChangesView {
        self@
    }
}

/// The order in which the categories stand in a diff.
pub open spec fn category_order() -> Seq<PullRequestCategory> {
    seq![
        PullRequestCategory::Rereview,
        PullRequestCategory::MineApproved,
        PullRequestCategory::MineChangesRequested,
        PullRequestCategory::ReviewMissing,
        PullRequestCategory::MinePending,
        PullRequestCategory::ReviewRequested,
    ]
}

/// Gives each category the pull requests that entered it.
pub open spec fn changes_in(previous: PullRequestsDataView, new: PullRequestsDataView) -> spec_fn(
    PullRequestCategory,
) -> CategoryChangesView {
    |category: PullRequestCategory|
        CategoryChangesView { category, pull_requests: entered(previous, new, category) }
}

/// Holds of the categories that some pull request entered.
pub open spec fn has_changes() -> spec_fn(CategoryChangesView) -> bool {
    |changes: CategoryChangesView| changes.pull_requests.len() > 0
}

/// The diff of two snapshots: for each category that a pull request of `new`
/// entered, those pull requests. Categories that none entered are left out.
pub open spec fn spec_diff(previous: PullRequestsDataView, new: PullRequestsDataView) -> Seq<
    CategoryChangesView,
> {
    category_order().map_values(changes_in(previous, new)).filter(has_changes())
}

/// The category under which the pull request `id` stands in `previous`.
fn find_previous_category(previous: &PullRequestsData, id: u64) -> (found: Option<
    PullRequestCategory,
>)
    ensures
        found == previous_category(previous@.pull_requests, id),
{
    let ghost items = previous@.pull_requests;
    let mut k: usize = 0;
    proof {
        assert(items.skip(0) =~= items);
    }
    while k < previous.pull_requests.len()
        invariant
            k <= previous.pull_requests.len(),
            items == previous.pull_requests.deep_view(),
            previous_category(items, id) == previous_category(items.skip(k as int), id),
        decreases previous.pull_requests.len() - k,
    {
        proof {
            assert(items.skip(k as int).drop_first() =~= items.skip(k + 1));
            assert(items[k as int] == previous.pull_requests[k as int]@);
        }
        if previous.pull_requests[k].id == id {
            return Some(previous.pull_requests[k].category);
        }
        k = k + 1;
    }
    None
}

/// The pull requests of `new` that entered `category`.
fn entered_category(
    previous: &PullRequestsData,
    new: &PullRequestsData,
    category: PullRequestCategory,
) -> (found: Vec<PullRequestItem>)
    ensures
        found.deep_view() == entered(previous@, new@, category),
{
    let ghost items = new@.pull_requests;
    let ghost wanted = entering(previous@.pull_requests, category);
    let mut found: Vec<PullRequestItem> = Vec::new();
    let mut i: usize = 0;
    proof {
        reveal(Seq::filter);
        assert(items.take(0) =~= Seq::empty());
        assert(found.deep_view() =~= items.take(0).filter(wanted));
    }
    while i < new.pull_requests.len()
        invariant
            i <= new.pull_requests.len(),
            items == new.pull_requests.deep_view(),
            wanted == entering(previous@.pull_requests, category),
            found.deep_view() == items.take(i as int).filter(wanted),
        decreases new.pull_requests.len() - i,
    {
        let ghost so_far = found.deep_view();
        proof {
            assert(items.take(i + 1) =~= items.take(i as int).push(items[i as int]));
            items.take(i as int).lemma_filter_push(items[i as int], wanted);
            assert(items[i as int] == new.pull_requests[i as int]@);
        }
        let pr = &new.pull_requests[i];
        if pr.category == category {
            let changed = match find_previous_category(previous, pr.id) {
                Some(old_category) => old_category != pr.category,
                None => true,
            };
            if changed {
                let copy = pr.clone();
                found.push(copy);
                proof {
                    assert(found.deep_view() =~= so_far.push(copy@));
                }
            }
        }
        i = i + 1;
    }
    proof {
        assert(items.take(i as int) =~= items);
    }
    found
}

/// The categories in the order of a diff.
fn categories_in_order() -> (order: Vec<PullRequestCategory>)
    ensures
        order@ == category_order(),
{
    let mut order: Vec<PullRequestCategory> = Vec::new();
    order.push(PullRequestCategory::Rereview);
    order.push(PullRequestCategory::MineApproved);
    order.push(PullRequestCategory::MineChangesRequested);
    order.push(PullRequestCategory::ReviewMissing);
    order.push(PullRequestCategory::MinePending);
    order.push(PullRequestCategory::ReviewRequested);
    proof {
        assert(order@ =~= category_order());
    }
    order
}

/// Compares two snapshots. A pull request of `new` enters its category if
/// `previous` does not hold it or holds it under another category. Pull
/// requests that only `previous` holds are passed over.
pub fn diff_snapshots(previous: &PullRequestsData, new: &PullRequestsData) -> (diff: Vec<
    CategoryChanges,
>)
    ensures
        diff.deep_view() == spec_diff(previous@, new@),
{
    let order = categories_in_order();
    let ghost each = changes_in(previous@, new@);
    let mut diff: Vec<CategoryChanges> = Vec::new();
    let mut k: usize = 0;
    proof {
        reveal(Seq::filter);
        assert(order@.take(0).map_values(each) =~= Seq::empty());
        assert(diff.deep_view() =~= order@.take(0).map_values(each).filter(has_changes()));
    }
    while k < order.len()
        invariant
            k <= order.len(),
            order@ == category_order(),
            each == changes_in(previous@, new@),
            diff.deep_view() == order@.take(k as int).map_values(each).filter(has_changes()),
        decreases order.len() - k,
    {
        let ghost so_far = diff.deep_view();
        let category = order[k];
        let pull_requests = entered_category(previous, new, category);
        proof {
            assert(order@.take(k + 1).map_values(each) =~= order@.take(k as int).map_values(
                each,
            ).push(each(category)));
            order@.take(k as int).map_values(each).lemma_filter_push(
                each(category),
                has_changes(),
            );
        }
        if pull_requests.len() > 0 {
            let changes = CategoryChanges { category, pull_requests };
            diff.push(changes);
            proof {
                assert(diff.deep_view() =~= so_far.push(changes@));
            }
        }
        k = k + 1;
    }
    proof {
        assert(order@.take(k as int) =~= order@);
    }
    diff
}

/// Holds of the pull requests with the identifier `id`.
pub open spec fn with_id(id: u64) -> spec_fn(PullRequestItemView) -> bool {
    |item: PullRequestItemView| item.id == id
}

/// How often the pull request `id` stands in a diff, all categories taken
/// together.
pub open spec fn occurrences(diff: Seq<CategoryChangesView>, id: u64) -> nat
    decreases diff.len(),
{
    if diff.len() == 0 {
        0
    } else {
        occurrences(diff.drop_last(), id) + diff.last().pull_requests.filter(with_id(id)).len()
    }
}

/// Nothing passes a filter that no element meets.
proof fn lemma_filter_none<A>(items: Seq<A>, wanted: spec_fn(A) -> bool)
    requires
        forall|i: int| 0 <= i < items.len() ==> !wanted(#[trigger] items[i]),
    ensures
        items.filter(wanted) == Seq::<A>::empty(),
    decreases items.len(),
{
    reveal(Seq::filter);
    if items.len() > 0 {
        let rest = items.drop_last();
        assert forall|i: int| 0 <= i < rest.len() implies !wanted(#[trigger] rest[i]) by {
            assert(rest[i] == items[i]);
        }
        lemma_filter_none(rest, wanted);
    }
}

/// Whatever passes a filter stood in the sequence and meets the filter.
proof fn lemma_filter_members<A>(items: Seq<A>, wanted: spec_fn(A) -> bool, j: int)
    requires
        0 <= j < items.filter(wanted).len(),
    ensures
        wanted(items.filter(wanted)[j]),
        items.contains(items.filter(wanted)[j]),
{
    items.lemma_filter_pred(wanted, j);
    assert(items.filter(wanted).contains(items.filter(wanted)[j]));
    items.lemma_filter_contains_rev(wanted, items.filter(wanted)[j]);
}

/// In a snapshot without a repeated identifier, two places hold different
/// identifiers.
pub proof fn lemma_ids_differ(snapshot: PullRequestsDataView, a: int, b: int)
    requires
        snapshot.wf(),
        0 <= a < snapshot.pull_requests.len(),
        0 <= b < snapshot.pull_requests.len(),
        a != b,
    ensures
        snapshot.pull_requests[a].id != snapshot.pull_requests[b].id,
{
    assert(snapshot.ids()[a] == snapshot.pull_requests[a].id);
    assert(snapshot.ids()[b] == snapshot.pull_requests[b].id);
}

/// Among the pull requests that meet `wanted`, the identifier of the one at
/// place `i` occurs once if that one meets `wanted`, and not at all if not.
proof fn lemma_count_of_place(
    items: Seq<PullRequestItemView>,
    wanted: spec_fn(PullRequestItemView) -> bool,
    i: int,
)
    requires
        0 <= i < items.len(),
        forall|a: int, b: int|
            0 <= a < items.len() && 0 <= b < items.len() && a != b ==> (#[trigger] items[a]).id != (
            #[trigger] items[b]).id,
    ensures
        items.filter(wanted).filter(with_id(items[i].id)).len() == if wanted(items[i]) {
            1nat
        } else {
            0nat
        },
    decreases items.len(),
{
    let id = items[i].id;
    let rest = items.drop_last();
    let last = items.last();
    assert(items =~= rest.push(last));
    rest.lemma_filter_push(last, wanted);
    rest.filter(wanted).lemma_filter_push(last, with_id(id));
    if i == items.len() - 1 {
        lemma_count_absent(rest, wanted, id);
    } else {
        assert(rest[i] == items[i]);
        assert forall|a: int, b: int|
            0 <= a < rest.len() && 0 <= b < rest.len() && a != b implies (#[trigger] rest[a]).id != (
        #[trigger] rest[b]).id by {
            assert(rest[a] == items[a]);
            assert(rest[b] == items[b]);
        }
        lemma_count_of_place(rest, wanted, i);
        assert(items[items.len() - 1].id != items[i].id);
    }
}

/// An identifier that no pull request has occurs in no selection of them.
proof fn lemma_count_absent(
    items: Seq<PullRequestItemView>,
    wanted: spec_fn(PullRequestItemView) -> bool,
    id: u64,
)
    requires
        forall|j: int| 0 <= j < items.len() ==> (#[trigger] items[j]).id != id,
    ensures
        items.filter(wanted).filter(with_id(id)).len() == 0,
{
    let chosen = items.filter(wanted);
    assert forall|j: int| 0 <= j < chosen.len() implies !with_id(id)(#[trigger] chosen[j]) by {
        lemma_filter_members(items, wanted, j);
        let k = choose|k: int| 0 <= k < items.len() && items[k] == chosen[j];
        assert(items[k].id != id);
    }
    lemma_filter_none(chosen, with_id(id));
}

/// How often `id` stands in the diff, counted over the categories of `order`.
spec fn total_over(
    previous: PullRequestsDataView,
    new: PullRequestsDataView,
    order: Seq<PullRequestCategory>,
    id: u64,
) -> nat
    decreases order.len(),
{
    if order.len() == 0 {
        0
    } else {
        total_over(previous, new, order.drop_last(), id) + entered(
            previous,
            new,
            order.last(),
        ).filter(with_id(id)).len()
    }
}

/// Leaving out the categories that nothing entered does not change how often
/// an identifier occurs.
proof fn lemma_occurrences_over(
    previous: PullRequestsDataView,
    new: PullRequestsDataView,
    order: Seq<PullRequestCategory>,
    id: u64,
)
    ensures
        occurrences(order.map_values(changes_in(previous, new)).filter(has_changes()), id)
            == total_over(previous, new, order, id),
    decreases order.len(),
{
    let each = changes_in(previous, new);
    if order.len() == 0 {
        reveal(Seq::filter);
        assert(order.map_values(each) =~= Seq::empty());
    } else {
        let rest = order.drop_last();
        let last = order.last();
        lemma_occurrences_over(previous, new, rest, id);
        assert(order.map_values(each) =~= rest.map_values(each).push(each(last)));
        rest.map_values(each).lemma_filter_push(each(last), has_changes());
        let kept = rest.map_values(each).filter(has_changes());
        if has_changes()(each(last)) {
            assert(kept.push(each(last)).drop_last() =~= kept);
        } else {
            reveal(Seq::filter);
            assert(entered(previous, new, last) =~= Seq::empty());
        }
    }
}

/// What each category adds to the count of the pull request at place `i`.
proof fn lemma_total_of_place(
    previous: PullRequestsDataView,
    new: PullRequestsDataView,
    order: Seq<PullRequestCategory>,
    i: int,
)
    requires
        new.wf(),
        0 <= i < new.pull_requests.len(),
        order.no_duplicates(),
    ensures
        total_over(previous, new, order, new.pull_requests[i].id) == if order.contains(
            new.pull_requests[i].category,
        ) && is_transition(previous.pull_requests, new.pull_requests[i]) {
            1nat
        } else {
            0nat
        },
    decreases order.len(),
{
    let item = new.pull_requests[i];
    if order.len() > 0 {
        let rest = order.drop_last();
        let last = order.last();
        lemma_total_of_place(previous, new, rest, i);
        assert forall|a: int, b: int|
            0 <= a < new.pull_requests.len() && 0 <= b < new.pull_requests.len() && a
                != b implies (#[trigger] new.pull_requests[a]).id != (
        #[trigger] new.pull_requests[b]).id by {
            lemma_ids_differ(new, a, b);
        }
        lemma_count_of_place(new.pull_requests, entering(previous.pull_requests, last), i);
        if rest.contains(item.category) {
            let k = choose|k: int| 0 <= k < rest.len() && rest[k] == item.category;
            assert(order[k] == item.category);
            assert(order[order.len() - 1] == last);
        }
        if order.contains(item.category) && !rest.contains(item.category) {
            let k = choose|k: int| 0 <= k < order.len() && order[k] == item.category;
            if k < order.len() - 1 {
                assert(rest[k] == item.category);
            }
        }
        if last == item.category {
            assert(order[order.len() - 1] == item.category);
        }
    }
}

/// A diff names every pull request that changed, once, under its new
/// category: a pull request of `new` that is new against `previous`, or stands
/// there under another category, occurs exactly once in the diff, and it is
/// the entry of its category that holds it.
pub proof fn lemma_diff_is_complete(
    previous: PullRequestsDataView,
    new: PullRequestsDataView,
    i: int,
)
    requires
        new.wf(),
        0 <= i < new.pull_requests.len(),
        is_transition(previous.pull_requests, new.pull_requests[i]),
    ensures
        occurrences(spec_diff(previous, new), new.pull_requests[i].id) == 1,
        exists|k: int|
            0 <= k < spec_diff(previous, new).len() && (#[trigger] spec_diff(
                previous,
                new,
            )[k]).category == new.pull_requests[i].category && spec_diff(
                previous,
                new,
            )[k].pull_requests.contains(new.pull_requests[i]),
{
    let item = new.pull_requests[i];
    let order = category_order();
    let each = changes_in(previous, new);
    lemma_occurrences_over(previous, new, order, item.id);
    lemma_category_order_is_complete(item.category);
    lemma_total_of_place(previous, new, order, i);

    let m = choose|m: int| 0 <= m < order.len() && order[m] == item.category;
    let wanted = entering(previous.pull_requests, item.category);
    assert(wanted(item));
    new.pull_requests.lemma_filter_contains(wanted, i);
    let entry = each(item.category);
    assert(entry.pull_requests.contains(item));
    assert(order.map_values(each)[m] == entry);
    assert(has_changes()(entry));
    order.map_values(each).lemma_filter_contains(has_changes(), m);
    let diff = spec_diff(previous, new);
    let k = choose|k: int| 0 <= k < diff.len() && diff[k] == entry;
    assert(diff[k].category == item.category);
}

/// Every category stands in the order of a diff, and none stands there twice.
pub proof fn lemma_category_order_is_complete(category: PullRequestCategory)
    ensures
        category_order().contains(category),
        category_order().no_duplicates(),
{
    let order = category_order();
    assert(order[0] == PullRequestCategory::Rereview);
    assert(order[1] == PullRequestCategory::MineApproved);
    assert(order[2] == PullRequestCategory::MineChangesRequested);
    assert(order[3] == PullRequestCategory::ReviewMissing);
    assert(order[4] == PullRequestCategory::MinePending);
    assert(order[5] == PullRequestCategory::ReviewRequested);
}

/// A pull request that stands in both snapshots under the same category is
/// left out of the diff.
pub proof fn lemma_diff_leaves_out_unchanged(
    previous: PullRequestsDataView,
    new: PullRequestsDataView,
    i: int,
)
    requires
        new.wf(),
        0 <= i < new.pull_requests.len(),
        !is_transition(previous.pull_requests, new.pull_requests[i]),
    ensures
        occurrences(spec_diff(previous, new), new.pull_requests[i].id) == 0,
{
    lemma_occurrences_over(previous, new, category_order(), new.pull_requests[i].id);
    lemma_category_order_is_complete(new.pull_requests[i].category);
    lemma_total_of_place(previous, new, category_order(), i);
}

/// A pull request that `new` does not hold occurs nowhere in the diff,
/// whether `previous` held it or not: of a pull request that was closed or
/// merged nothing is said.
pub proof fn lemma_diff_is_silent_on_absent(
    previous: PullRequestsDataView,
    new: PullRequestsDataView,
    id: u64,
)
    requires
        !new.ids().contains(id),
    ensures
        occurrences(spec_diff(previous, new), id) == 0,
{
    lemma_occurrences_over(previous, new, category_order(), id);
    lemma_total_absent(previous, new, category_order(), id);
}

/// An identifier that `new` does not hold is counted in no category.
proof fn lemma_total_absent(
    previous: PullRequestsDataView,
    new: PullRequestsDataView,
    order: Seq<PullRequestCategory>,
    id: u64,
)
    requires
        !new.ids().contains(id),
    ensures
        total_over(previous, new, order, id) == 0,
    decreases order.len(),
{
    if order.len() > 0 {
        lemma_total_absent(previous, new, order.drop_last(), id);
        assert forall|j: int| 0 <= j < new.pull_requests.len() implies (
        #[trigger] new.pull_requests[j]).id != id by {
            assert(new.ids()[j] == new.pull_requests[j].id);
        }
        lemma_count_absent(new.pull_requests, entering(previous.pull_requests, order.last()), id);
    }
}

/// In a snapshot without a repeated identifier, each pull request is found
/// under its own category.
pub proof fn lemma_previous_category_of_member(snapshot: PullRequestsDataView, i: int)
    requires
        snapshot.wf(),
        0 <= i < snapshot.pull_requests.len(),
    ensures
        previous_category(snapshot.pull_requests, snapshot.pull_requests[i].id) == Some(
            snapshot.pull_requests[i].category,
        ),
{
    let items = snapshot.pull_requests;
    assert forall|a: int, b: int|
        0 <= a < items.len() && 0 <= b < items.len() && a != b implies (#[trigger] items[a]).id != (
    #[trigger] items[b]).id by {
        lemma_ids_differ(snapshot, a, b);
    }
    lemma_first_with_id(items, i);
}

/// Where no identifier is repeated, the first pull request with the
/// identifier of a place is the one at that place.
proof fn lemma_first_with_id(items: Seq<PullRequestItemView>, i: int)
    requires
        0 <= i < items.len(),
        forall|a: int, b: int|
            0 <= a < items.len() && 0 <= b < items.len() && a != b ==> (#[trigger] items[a]).id != (
            #[trigger] items[b]).id,
    ensures
        previous_category(items, items[i].id) == Some(items[i].category),
    decreases items.len(),
{
    if i > 0 {
        let rest = items.drop_first();
        assert(items[0].id != items[i].id);
        assert(rest[i - 1] == items[i]);
        assert forall|a: int, b: int|
            0 <= a < rest.len() && 0 <= b < rest.len() && a != b implies (#[trigger] rest[a]).id != (
        #[trigger] rest[b]).id by {
            assert(rest[a] == items[a + 1]);
            assert(rest[b] == items[b + 1]);
        }
        lemma_first_with_id(rest, i - 1);
    }
}

/// The diff of a snapshot against a snapshot with the same pull requests is
/// empty, whatever the times of the two.
pub proof fn lemma_diff_of_unchanged_is_empty(
    previous: PullRequestsDataView,
    new: PullRequestsDataView,
)
    requires
        previous.wf(),
        new.pull_requests == previous.pull_requests,
    ensures
        spec_diff(previous, new) == Seq::<CategoryChangesView>::empty(),
        spec_notifications(spec_diff(previous, new)) == Seq::<NotificationView>::empty(),
{
    let order = category_order();
    let each = changes_in(previous, new);
    let all = order.map_values(each);
    assert forall|m: int| 0 <= m < all.len() implies !has_changes()(#[trigger] all[m]) by {
        let wanted = entering(previous.pull_requests, order[m]);
        assert forall|i: int| 0 <= i < new.pull_requests.len() implies !wanted(
            #[trigger] new.pull_requests[i],
        ) by {
            lemma_previous_category_of_member(previous, i);
        }
        lemma_filter_none(new.pull_requests, wanted);
    }
    lemma_filter_none(all, has_changes());
}

/// A notification to show to the user.
#[derive(Debug)]
pub struct Notification {
    pub title: String,
    pub body: String,
}

pub struct NotificationView {
    pub title: Seq<char>,
    pub body: Seq<char>,
}

impl View for Notification {
    type V = NotificationView;

    open spec fn view(&self) -> NotificationView {
        NotificationView { title: self.title@, body: self.body@ }
    }
}

impl DeepView for Notification {
    type V = NotificationView;

    open spec fn deep_view(&self) -> NotificationView {
        self@
    }
}

/// The character of a decimal digit.
pub open spec fn digit_char(digit: nat) -> char {
    if digit == 0 {
        '0'
    } else if digit == 1 {
        '1'
    } else if digit == 2 {
        '2'
    } else if digit == 3 {
        '3'
    } else if digit == 4 {
        '4'
    } else if digit == 5 {
        '5'
    } else if digit == 6 {
        '6'
    } else if digit == 7 {
        '7'
    } else if digit == 8 {
        '8'
    } else {
        '9'
    }
}

/// The decimal digits of a number, without leading zeros.
pub open spec fn decimal(number: nat) -> Seq<char>
    decreases number,
{
    if number < 10 {
        seq![digit_char(number)]
    } else {
        decimal(number / 10).push(digit_char(number % 10))
    }
}

/// The text of a decimal digit.
fn digit_text(digit: usize) -> (text: &'static str)
    requires
        digit < 10,
    ensures
        text@ == seq![digit_char(digit as nat)],
{
    proof {
        reveal_strlit("0");
        reveal_strlit("1");
        reveal_strlit("2");
        reveal_strlit("3");
        reveal_strlit("4");
        reveal_strlit("5");
        reveal_strlit("6");
        reveal_strlit("7");
        reveal_strlit("8");
        reveal_strlit("9");
    }
    let text = if digit == 0 {
        "0"
    } else if digit == 1 {
        "1"
    } else if digit == 2 {
        "2"
    } else if digit == 3 {
        "3"
    } else if digit == 4 {
        "4"
    } else if digit == 5 {
        "5"
    } else if digit == 6 {
        "6"
    } else if digit == 7 {
        "7"
    } else if digit == 8 {
        "8"
    } else {
        "9"
    };
    assert(text@ =~= seq![digit_char(digit as nat)]);
    text
}

/// The number in decimal digits.
pub fn decimal_string(number: usize) -> (text: String)
    ensures
        text@ == decimal(number as nat),
    decreases number,
{
    if number < 10 {
        digit_text(number).to_string()
    } else {
        let text = decimal_string(number / 10).concat(digit_text(number % 10));
        assert(text@ =~= decimal(number as nat));
        text
    }
}

/// The texts one after the other, with `separator` between them.
pub open spec fn joined(texts: Seq<Seq<char>>, separator: Seq<char>) -> Seq<char>
    decreases texts.len(),
{
    if texts.len() == 0 {
        Seq::empty()
    } else if texts.len() == 1 {
        texts[0]
    } else {
        joined(texts.drop_last(), separator) + separator + texts.last()
    }
}

/// The titles of the pull requests, in their order.
pub open spec fn titles(pull_requests: Seq<PullRequestItemView>) -> Seq<Seq<char>> {
    Seq::new(pull_requests.len(), |i: int| pull_requests[i].title)
}

/// The titles of the first three pull requests, an empty line between them.
pub open spec fn spec_format_titles(pull_requests: Seq<PullRequestItemView>) -> Seq<char> {
    joined(
        titles(
            if pull_requests.len() > 3 {
                pull_requests.take(3)
            } else {
                pull_requests
            },
        ),
        "\n\n"@,
    )
}

/// The titles of the first three pull requests, an empty line between them.
pub fn format_titles(pull_requests: &Vec<PullRequestItem>) -> (text: String)
    ensures
        text@ == spec_format_titles(pull_requests.deep_view()),
{
    let ghost all = pull_requests.deep_view();
    let count: usize = if pull_requests.len() > 3 {
        3
    } else {
        pull_requests.len()
    };
    let ghost shown = if all.len() > 3 {
        all.take(3)
    } else {
        all
    };
    let mut text = String::new();
    let mut i: usize = 0;
    proof {
        assert(titles(shown).take(0) =~= Seq::empty());
    }
    while i < count
        invariant
            i <= count,
            count == shown.len(),
            count <= pull_requests.len(),
            all == pull_requests.deep_view(),
            forall|j: int| 0 <= j < count ==> shown[j] == all[j],
            text@ == joined(titles(shown).take(i as int), "\n\n"@),
        decreases count - i,
    {
        proof {
            let part = titles(shown).take(i + 1);
            assert(part.drop_last() =~= titles(shown).take(i as int));
            assert(part.last() == pull_requests[i as int]@.title);
            if i == 0 {
                assert(part.len() == 1);
                assert(text@ =~= Seq::<char>::empty());
                assert(text@ + pull_requests[i as int]@.title =~= part[0]);
            }
        }
        if i > 0 {
            text = text.concat("\n\n");
        }
        text = text.concat(pull_requests[i].title.as_str());
        i = i + 1;
    }
    proof {
        assert(titles(shown).take(i as int) =~= titles(shown));
    }
    text
}

/// The notification that tells of `pull_requests` under a subject: up to
/// three pull requests are named by their titles, more are counted.
pub open spec fn spec_notification(
    pull_requests: Seq<PullRequestItemView>,
    subject: Seq<char>,
) -> NotificationView {
    NotificationView {
        title: "- "@ + subject + " -"@,
        body: if pull_requests.len() > 3 {
            decimal(pull_requests.len()) + " "@ + subject
        } else {
            spec_format_titles(pull_requests)
        },
    }
}

/// The notification that tells of `pull_requests` under the subject `title`.
pub fn pull_request_notification(pull_requests: &Vec<PullRequestItem>, title: &str) -> (notification:
    Notification)
    ensures
        notification@ == spec_notification(pull_requests.deep_view(), title@),
{
    let body = if pull_requests.len() > 3 {
        decimal_string(pull_requests.len()).concat(" ").concat(title)
    } else {
        format_titles(pull_requests)
    };
    let formatted_title = "- ".to_string().concat(title).concat(" -");
    Notification { title: formatted_title, body }
}

/// The subject under which the user is told of pull requests that entered
/// `category`; `None` for the categories of which the user is not told.
pub open spec fn spec_subject(category: PullRequestCategory) -> Option<Seq<char>> {
    match category {
        PullRequestCategory::Rereview => Some("PRs to re-review"@),
        PullRequestCategory::MineApproved => Some("PRs approved"@),
        PullRequestCategory::MineChangesRequested => Some("PRs rejected"@),
        PullRequestCategory::ReviewMissing => Some("PRs missing review"@),
        PullRequestCategory::MinePending => None,
        PullRequestCategory::ReviewRequested => None,
    }
}

/// The subject under which the user is told of pull requests that entered
/// `category`.
pub fn subject(category: PullRequestCategory) -> (text: Option<&'static str>)
    ensures
        match text {
            Some(found) => spec_subject(category) == Some(found@),
            None => spec_subject(category) is None,
        },
{
    match category {
        PullRequestCategory::Rereview => Some("PRs to re-review"),
        PullRequestCategory::MineApproved => Some("PRs approved"),
        PullRequestCategory::MineChangesRequested => Some("PRs rejected"),
        PullRequestCategory::ReviewMissing => Some("PRs missing review"),
        PullRequestCategory::MinePending => None,
        PullRequestCategory::ReviewRequested => None,
    }
}

/// The notifications of a diff: one for each of its categories that has a
/// subject, in the order of the diff.
pub open spec fn spec_notifications(diff: Seq<CategoryChangesView>) -> Seq<NotificationView>
    decreases diff.len(),
{
    if diff.len() == 0 {
        Seq::empty()
    } else {
        let earlier = spec_notifications(diff.drop_last());
        match spec_subject(diff.last().category) {
            Some(subject) => earlier.push(spec_notification(diff.last().pull_requests, subject)),
            None => earlier,
        }
    }
}

/// The notifications that a change of snapshot calls for: pull requests to
/// review again, pull requests of the viewer that were approved or rejected,
/// and pull requests that miss a review.
pub fn notify_new_pull_requests(payload: &FilterDataUpdatedPayload) -> (notifications: Vec<
    Notification,
>)
    ensures
        notifications.deep_view() == spec_notifications(
            spec_diff(payload@.old_data, payload@.new_data),
        ),
{
    let diff = diff_snapshots(&payload.old_data, &payload.new_data);
    let ghost changes = diff.deep_view();
    let mut notifications: Vec<Notification> = Vec::new();
    let mut k: usize = 0;
    proof {
        assert(changes.take(0) =~= Seq::empty());
        assert(notifications.deep_view() =~= Seq::empty());
    }
    while k < diff.len()
        invariant
            k <= diff.len(),
            changes == diff.deep_view(),
            notifications.deep_view() == spec_notifications(changes.take(k as int)),
        decreases diff.len() - k,
    {
        let ghost so_far = notifications.deep_view();
        proof {
            assert(changes.take(k + 1).drop_last() =~= changes.take(k as int));
            assert(changes.take(k + 1).last() == diff[k as int]@);
        }
        match subject(diff[k].category) {
            Some(title) => {
                let notification = pull_request_notification(&diff[k].pull_requests, title);
                notifications.push(notification);
                proof {
                    assert(notifications.deep_view() =~= so_far.push(notification@));
                }
            },
            None => {},
        }
        k = k + 1;
    }
    proof {
        assert(changes.take(k as int) =~= changes);
    }
    notifications
}

/// What the user is told of an attempt to send a notification.
#[derive(Debug)]
pub struct NotificationResult {
    pub status: String,
}

impl NotificationResult {
    /// The report of an attempt: the message of the success or of the failure.
    pub fn from_outcome(outcome: Result<String, String>) -> (result: Self)
        ensures
            result.status@ == match outcome {
                Ok(message) => message@,
                Err(message) => message@,
            },
    {
        match outcome {
            Ok(status) => NotificationResult { status },
            Err(status) => NotificationResult { status },
        }
    }
}

} // verus!
