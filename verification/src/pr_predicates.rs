//! The reviews of a pull request, brought down to one standing review per
//! reviewing user, and the rules that decide the category of the pull request.

use crate::app_data::{AppConfig, AppConfigView, PullRequestCategory};
use crate::github_service::{
    get_owner_and_repo, names_owner_and_repo, repo_name_of, GithubPRReviewResponseView,
    GithubPRWithReviews, GithubPRWithReviewsView, Review, ReviewState, ReviewView,
};
use vstd::prelude::*;
use vstd::string::StringExecFns;

verus! {

/// Holds of the reviews that `login` submitted.
pub open spec fn by_reviewer(login: Seq<char>) -> spec_fn(ReviewView) -> bool {
    |review: ReviewView| review.user == Some(login)
}

/// The reviews that `login` submitted, in the order of `reviews`.
pub open spec fn reviews_of(reviews: Seq<ReviewView>, login: Seq<char>) -> Seq<ReviewView> {
    reviews.filter(by_reviewer(login))
}

/// Whether `login` submitted any review.
pub open spec fn has_reviewed(reviews: Seq<ReviewView>, login: Seq<char>) -> bool {
    reviews_of(reviews, login).len() > 0
}

/// The logins of those who submitted a review, each once, in the order of
/// their first review. A review that names no user adds nobody.
pub open spec fn reviewing_logins(reviews: Seq<ReviewView>) -> Seq<Seq<char>>
    decreases reviews.len(),
{
    if reviews.len() == 0 {
        Seq::empty()
    } else {
        let earlier = reviewing_logins(reviews.drop_last());
        match reviews.last().user {
            Some(login) => if earlier.contains(login) {
                earlier
            } else {
                earlier.push(login)
            },
            None => earlier,
        }
    }
}

/// The reviews grouped by who submitted them: one entry per login, in the
/// order of `reviewing_logins`, with the reviews of that login.
pub open spec fn spec_group_by_user(reviews: Seq<ReviewView>) -> Seq<(Seq<char>, Seq<ReviewView>)> {
    let logins = reviewing_logins(reviews);
    Seq::new(logins.len(), |k: int| (logins[k], reviews_of(reviews, logins[k])))
}

/// The number by which reviews are ordered in time. A review without a time
/// of submission comes before every review with one.
pub open spec fn time_key(review: ReviewView) -> int {
    match review.submitted_at {
        Some(instant) => instant as int,
        None => i64::MIN - 1,
    }
}

/// The review submitted last. Of several submitted at the same latest time it
/// is the one that stands last in `reviews`.
pub open spec fn latest_review(reviews: Seq<ReviewView>) -> ReviewView
    recommends
        reviews.len() > 0,
    decreases reviews.len(),
{
    if reviews.len() <= 1 {
        reviews[0]
    } else {
        let earlier = latest_review(reviews.drop_last());
        if time_key(reviews.last()) >= time_key(earlier) {
            reviews.last()
        } else {
            earlier
        }
    }
}

/// Whether the review is a vote: it is approved or changes requested.
pub open spec fn is_vote(review: ReviewView) -> bool {
    ||| review.state == Some(ReviewState::Approved)
    ||| review.state == Some(ReviewState::ChangesRequested)
}

/// Holds of the votes.
pub open spec fn votes() -> spec_fn(ReviewView) -> bool {
    |review: ReviewView| is_vote(review)
}

/// Whether `login` submitted a vote.
pub open spec fn has_voted(reviews: Seq<ReviewView>, login: Seq<char>) -> bool {
    reviews_of(reviews, login).filter(votes()).len() > 0
}

/// Whether the review is a vote or dismissed: what takes the place of an
/// earlier vote. A comment and a pending review do not.
pub open spec fn is_decisive(review: ReviewView) -> bool {
    is_vote(review) || review.state == Some(ReviewState::Dismissed)
}

/// Holds of the votes and of the dismissed reviews.
pub open spec fn decisive() -> spec_fn(ReviewView) -> bool {
    |review: ReviewView| is_decisive(review)
}

/// The review of `login` that counts. Where the user never voted it is the
/// latest review. Where the user voted it is the latest among the votes and
/// the dismissed reviews, so that a later comment does not take a vote back
/// while a later vote or dismissal does.
pub open spec fn effective_review(reviews: Seq<ReviewView>, login: Seq<char>) -> ReviewView
    recommends
        has_reviewed(reviews, login),
{
    let own = reviews_of(reviews, login);
    if has_voted(reviews, login) {
        latest_review(own.filter(decisive()))
    } else {
        latest_review(own)
    }
}

/// Whether `login` is currently asked to review.
pub open spec fn is_requested(pr: GithubPRWithReviewsView, login: Seq<char>) -> bool {
    pr.reviewers.users.contains(login)
}

/// For each login of `reviewing_logins`, in that order, the review that
/// counts and whether that user is currently asked to review again.
pub open spec fn spec_latest_reviews(pr: GithubPRWithReviewsView) -> Seq<(ReviewView, bool)> {
    let logins = reviewing_logins(pr.reviews);
    Seq::new(
        logins.len(),
        |k: int| (effective_review(pr.reviews, logins[k]), is_requested(pr, logins[k])),
    )
}

/// What `reviews_of` makes of one more review.
pub proof fn lemma_reviews_of_push(reviews: Seq<ReviewView>, review: ReviewView, login: Seq<char>)
    ensures
        reviews_of(reviews.push(review), login) == if review.user == Some(login) {
            reviews_of(reviews, login).push(review)
        } else {
            reviews_of(reviews, login)
        },
{
    reviews.lemma_filter_push(review, by_reviewer(login));
}

/// A login stands in `reviewing_logins` exactly if it submitted a review.
pub proof fn lemma_reviewing_logins_contains(reviews: Seq<ReviewView>, login: Seq<char>)
    ensures
        reviewing_logins(reviews).contains(login) <==> has_reviewed(reviews, login),
    decreases reviews.len(),
{
    if reviews.len() == 0 {
        reveal(Seq::filter);
    } else {
        let rest = reviews.drop_last();
        let last = reviews.last();
        lemma_reviewing_logins_contains(rest, login);
        assert(reviews =~= rest.push(last));
        lemma_reviews_of_push(rest, last, login);
        let earlier = reviewing_logins(rest);
        match last.user {
            Some(name) => {
                if !earlier.contains(name) {
                    assert(earlier.push(name)[earlier.len() as int] == name);
                    if earlier.contains(login) {
                        let k = choose|k: int| 0 <= k < earlier.len() && earlier[k] == login;
                        assert(earlier.push(name)[k] == login);
                    }
                }
            },
            None => {},
        }
    }
}

/// No login stands twice in `reviewing_logins`.
pub proof fn lemma_reviewing_logins_distinct(reviews: Seq<ReviewView>)
    ensures
        reviewing_logins(reviews).no_duplicates(),
    decreases reviews.len(),
{
    if reviews.len() > 0 {
        lemma_reviewing_logins_distinct(reviews.drop_last());
    }
}

/// What one more review adds to `reviewing_logins` and to `reviews_of`.
proof fn lemma_reviewing_logins_step(reviews: Seq<ReviewView>, end: int)
    requires
        0 <= end < reviews.len(),
    ensures
        reviewing_logins(reviews.take(end + 1)) == match reviews[end].user {
            Some(login) => if reviewing_logins(reviews.take(end)).contains(login) {
                reviewing_logins(reviews.take(end))
            } else {
                reviewing_logins(reviews.take(end)).push(login)
            },
            None => reviewing_logins(reviews.take(end)),
        },
        forall|login: Seq<char>| #[trigger]
            reviews_of(reviews.take(end + 1), login) == if reviews[end].user == Some(login) {
                reviews_of(reviews.take(end), login).push(reviews[end])
            } else {
                reviews_of(reviews.take(end), login)
            },
{
    assert(reviews.take(end + 1).drop_last() =~= reviews.take(end));
    assert(reviews.take(end + 1) =~= reviews.take(end).push(reviews[end]));
    assert forall|login: Seq<char>| #[trigger]
        reviews_of(reviews.take(end + 1), login) == if reviews[end].user == Some(login) {
            reviews_of(reviews.take(end), login).push(reviews[end])
        } else {
            reviews_of(reviews.take(end), login)
        } by {
        lemma_reviews_of_push(reviews.take(end), reviews[end], login);
    }
}

/// The place of the group of `login`, if it has one.
fn find_group(groups: &Vec<(String, Vec<Review>)>, login: &String) -> (place: Option<usize>)
    ensures
        match place {
            Some(k) => k < groups.len() && groups[k as int].0@ == login@,
            None => forall|j: int| 0 <= j < groups.len() ==> (#[trigger] groups[j]).0@ != login@,
        },
{
    let mut k: usize = 0;
    while k < groups.len()
        invariant
            k <= groups.len(),
            forall|j: int| 0 <= j < k ==> (#[trigger] groups[j]).0@ != login@,
        decreases groups.len() - k,
    {
        if groups[k].0 == *login {
            return Some(k);
        }
        k = k + 1;
    }
    None
}

/// Groups the reviews by who submitted them. Reviews that name no user are
/// left out. The groups stand in the order in which the logins first appear, and each
/// holds its reviews in the order of `reviews`.
pub fn group_by_user(reviews: &Vec<Review>) -> (groups: Vec<(String, Vec<Review>)>)
    ensures
        groups.deep_view() == spec_group_by_user(reviews.deep_view()),
{
    let ghost all = reviews.deep_view();
    let mut groups: Vec<(String, Vec<Review>)> = Vec::new();
    let mut i: usize = 0;
    proof {
        assert(all.take(0) =~= Seq::empty());
    }
    while i < reviews.len()
        invariant
            i <= reviews.len(),
            all == reviews.deep_view(),
            groups.len() == reviewing_logins(all.take(i as int)).len(),
            forall|k: int|
                0 <= k < groups.len() ==> (#[trigger] groups[k]).0@ == reviewing_logins(
                    all.take(i as int),
                )[k],
            forall|k: int|
                0 <= k < groups.len() ==> (#[trigger] groups[k]).1.deep_view() == reviews_of(
                    all.take(i as int),
                    groups[k].0@,
                ),
        decreases reviews.len() - i,
    {
        let ghost before = all.take(i as int);
        let ghost logins = reviewing_logins(before);
        let ghost old_groups = groups;
        proof {
            lemma_reviewing_logins_step(all, i as int);
            assert(all[i as int] == reviews[i as int]@);
        }
        let review = &reviews[i];
        match &review.user {
            None => {
                proof {
                    assert forall|j: int| 0 <= j < groups.len() implies (
                    #[trigger] groups[j]).1.deep_view() == reviews_of(
                        all.take(i + 1),
                        groups[j].0@,
                    ) by {
                        lemma_reviews_of_push(before, all[i as int], groups[j].0@);
                    }
                }
            },
            Some(login) => {
                match find_group(&groups, login) {
                    Some(k) => {
                        let copy = review.clone();
                        let ghost old_members = groups[k as int].1.deep_view();
                        groups[k].1.push(copy);
                        proof {
                            assert(logins[k as int] == login@);
                            assert(groups[k as int].1.deep_view() =~= old_members.push(copy@));
                            lemma_reviewing_logins_distinct(before);
                            assert(logins.contains(login@));
                            assert forall|j: int| 0 <= j < groups.len() implies (
                            #[trigger] groups[j]).1.deep_view() == reviews_of(
                                all.take(i + 1),
                                groups[j].0@,
                            ) by {
                                assert(groups[j].0@ == old_groups[j].0@);
                                lemma_reviews_of_push(before, all[i as int], groups[j].0@);
                                if j != k {
                                    assert(groups[j] == old_groups[j]);
                                    assert(logins[j] != logins[k as int]);
                                }
                            }
                        }
                    },
                    None => {
                        let mut members: Vec<Review> = Vec::new();
                        let copy = review.clone();
                        members.push(copy);
                        groups.push((login.clone(), members));
                        proof {
                            assert(!logins.contains(login@)) by {
                                if logins.contains(login@) {
                                    let k = choose|k: int|
                                        0 <= k < logins.len() && logins[k] == login@;
                                    assert(old_groups[k].0@ == login@);
                                }
                            }
                            lemma_reviewing_logins_contains(before, login@);
                            assert(reviews_of(before, login@) =~= Seq::empty());
                            assert(members.deep_view() =~= Seq::<ReviewView>::empty().push(copy@));
                            assert forall|j: int| 0 <= j < groups.len() implies (
                            #[trigger] groups[j]).1.deep_view() == reviews_of(
                                all.take(i + 1),
                                groups[j].0@,
                            ) by {
                                lemma_reviews_of_push(before, all[i as int], groups[j].0@);
                                if j < old_groups.len() {
                                    assert(groups[j] == old_groups[j]);
                                    assert(logins[j] != login@);
                                }
                            }
                        }
                    },
                }
            },
        }
        i = i + 1;
    }
    proof {
        assert(all.take(i as int) =~= all);
        assert(groups.deep_view() =~= spec_group_by_user(all));
    }
    groups
}

/// Whether `a` was not submitted before `b`.
fn not_before(a: &Review, b: &Review) -> (later: bool)
    ensures
        later == (time_key(a@) >= time_key(b@)),
{
    match (a.submitted_at, b.submitted_at) {
        (Some(x), Some(y)) => x >= y,
        (Some(_), None) => true,
        (None, Some(_)) => false,
        (None, None) => true,
    }
}

/// The review submitted last; of several with the same latest time, the last
/// of them in `reviews`.
pub fn get_latest_review(reviews: &Vec<Review>) -> (latest: Review)
    requires
        reviews.len() > 0,
    ensures
        latest@ == latest_review(reviews.deep_view()),
{
    let ghost all = reviews.deep_view();
    let mut best: usize = 0;
    let mut i: usize = 1;
    while i < reviews.len()
        invariant
            1 <= i <= reviews.len(),
            best < i,
            all == reviews.deep_view(),
            reviews[best as int]@ == latest_review(all.take(i as int)),
        decreases reviews.len() - i,
    {
        proof {
            assert(all.take(i + 1).drop_last() =~= all.take(i as int));
        }
        if not_before(&reviews[i], &reviews[best]) {
            best = i;
        }
        i = i + 1;
    }
    proof {
        assert(all.take(i as int) =~= all);
    }
    reviews[best].clone()
}

/// Whether `username` is among the users currently asked to review.
pub fn is_user_review_requested(pr: &GithubPRWithReviews, username: &String) -> (requested: bool)
    ensures
        requested == is_requested(pr@, username@),
{
    let ghost users = pr.reviewers.users.deep_view();
    let mut i: usize = 0;
    while i < pr.reviewers.users.len()
        invariant
            i <= pr.reviewers.users.len(),
            users == pr.reviewers.users.deep_view(),
            forall|j: int| 0 <= j < i ==> users[j] != username@,
        decreases pr.reviewers.users.len() - i,
    {
        if pr.reviewers.users[i] == *username {
            assert(users[i as int] == username@);
            return true;
        }
        i = i + 1;
    }
    false
}

/// Whether one of the reviews is a vote.
fn any_vote(reviews: &Vec<Review>) -> (found: bool)
    ensures
        found == (reviews.deep_view().filter(votes()).len() > 0),
{
    let ghost all = reviews.deep_view();
    let mut found = false;
    let mut i: usize = 0;
    proof {
        reveal(Seq::filter);
        assert(all.take(0) =~= Seq::empty());
    }
    while i < reviews.len()
        invariant
            i <= reviews.len(),
            all == reviews.deep_view(),
            found == (all.take(i as int).filter(votes()).len() > 0),
        decreases reviews.len() - i,
    {
        proof {
            assert(all.take(i + 1) =~= all.take(i as int).push(all[i as int]));
            all.take(i as int).lemma_filter_len_push(votes(), all[i as int]);
        }
        match reviews[i].state {
            Some(ReviewState::Approved) => {
                found = true;
            },
            Some(ReviewState::ChangesRequested) => {
                found = true;
            },
            _ => {},
        }
        i = i + 1;
    }
    proof {
        assert(all.take(i as int) =~= all);
    }
    found
}

/// A vote is among the votes and the dismissed reviews, so where there is a
/// vote there is one of those.
proof fn lemma_vote_is_decisive(reviews: Seq<ReviewView>)
    requires
        reviews.filter(votes()).len() > 0,
    ensures
        reviews.filter(decisive()).len() > 0,
{
    let chosen = reviews.filter(votes());
    reviews.lemma_filter_pred(votes(), 0);
    assert(chosen.contains(chosen[0]));
    reviews.lemma_filter_contains_rev(votes(), chosen[0]);
    let k = choose|k: int| 0 <= k < reviews.len() && reviews[k] == chosen[0];
    reviews.lemma_filter_contains(decisive(), k);
}

/// The groups of `group_by_user` follow `reviewing_logins`: each holds the
/// login at its place and the reviews of that login, and a user has a group
/// exactly if the user reviewed.
proof fn lemma_groups_follow_logins(groups: Vec<(String, Vec<Review>)>, reviews: Seq<ReviewView>)
    requires
        groups.deep_view() == spec_group_by_user(reviews),
    ensures
        groups.len() == reviewing_logins(reviews).len(),
        forall|j: int|
            0 <= j < groups.len() ==> (#[trigger] groups[j]).0@ == reviewing_logins(reviews)[j]
                && groups[j].1.deep_view() == reviews_of(reviews, groups[j].0@),
        forall|login: Seq<char>| #[trigger]
            has_reviewed(reviews, login) <==> exists|j: int|
                0 <= j < groups.len() && (#[trigger] groups[j]).0@ == login,
{
    let logins = reviewing_logins(reviews);
    assert(groups.deep_view().len() == groups.len());
    assert(spec_group_by_user(reviews).len() == logins.len());
    assert forall|j: int| 0 <= j < groups.len() implies (#[trigger] groups[j]).0@ == logins[j]
        && groups[j].1.deep_view() == reviews_of(reviews, groups[j].0@) by {
        assert(groups.deep_view()[j] == spec_group_by_user(reviews)[j]);
    }
    assert forall|login: Seq<char>| #[trigger]
        has_reviewed(reviews, login) <==> exists|j: int|
            0 <= j < groups.len() && (#[trigger] groups[j]).0@ == login by {
        lemma_reviewing_logins_contains(reviews, login);
        if logins.contains(login) {
            let j = choose|j: int| 0 <= j < logins.len() && logins[j] == login;
            assert(groups[j].0@ == login);
        }
        if exists|j: int| 0 <= j < groups.len() && (#[trigger] groups[j]).0@ == login {
            let j = choose|j: int| 0 <= j < groups.len() && (#[trigger] groups[j]).0@ == login;
            assert(logins[j] == login);
        }
    }
}

/// The votes and the dismissed reviews, in their order.
fn decisive_reviews(reviews: &Vec<Review>) -> (firm: Vec<Review>)
    ensures
        firm.deep_view() == reviews.deep_view().filter(decisive()),
{
    let ghost all = reviews.deep_view();
    let mut firm: Vec<Review> = Vec::new();
    let mut i: usize = 0;
    proof {
        reveal(Seq::filter);
        assert(all.take(0) =~= Seq::empty());
        assert(firm.deep_view() =~= all.take(0).filter(decisive()));
    }
    while i < reviews.len()
        invariant
            i <= reviews.len(),
            all == reviews.deep_view(),
            firm.deep_view() == all.take(i as int).filter(decisive()),
        decreases reviews.len() - i,
    {
        let ghost kept = firm.deep_view();
        proof {
            assert(all.take(i + 1) =~= all.take(i as int).push(all[i as int]));
            all.take(i as int).lemma_filter_push(all[i as int], decisive());
        }
        let keep = match reviews[i].state {
            Some(ReviewState::Approved) => true,
            Some(ReviewState::ChangesRequested) => true,
            Some(ReviewState::Dismissed) => true,
            _ => false,
        };
        if keep {
            let copy = reviews[i].clone();
            firm.push(copy);
            proof {
                assert(firm.deep_view() =~= kept.push(copy@));
            }
        }
        i = i + 1;
    }
    proof {
        assert(all.take(i as int) =~= all);
    }
    firm
}

/// For each reviewing user the review that counts, and whether that user is
/// currently asked to review again.
pub fn latest_reviews(pr: &GithubPRWithReviews) -> (standing: Vec<(Review, bool)>)
    ensures
        standing.deep_view() == spec_latest_reviews(pr@),
{
    let groups = group_by_user(&pr.reviews);
    let ghost all = pr.reviews.deep_view();
    let ghost logins = reviewing_logins(all);
    let mut standing: Vec<(Review, bool)> = Vec::new();
    let mut k: usize = 0;
    proof {
        lemma_groups_follow_logins(groups, all);
    }
    while k < groups.len()
        invariant
            k <= groups.len(),
            all == pr@.reviews,
            logins == reviewing_logins(all),
            groups.deep_view() == spec_group_by_user(all),
            groups.len() == logins.len(),
            standing.len() == k,
            forall|j: int|
                0 <= j < k ==> (#[trigger] standing[j]).deep_view() == (
                    effective_review(all, logins[j]),
                    is_requested(pr@, logins[j]),
                ),
        decreases groups.len() - k,
    {
        proof {
            lemma_groups_follow_logins(groups, all);
            assert(groups[k as int].0@ == logins[k as int]);
            assert(has_reviewed(all, logins[k as int]));
        }
        let requested = is_user_review_requested(pr, &groups[k].0);
        let latest = if any_vote(&groups[k].1) {
            proof {
                lemma_vote_is_decisive(reviews_of(all, logins[k as int]));
            }
            let firm = decisive_reviews(&groups[k].1);
            get_latest_review(&firm)
        } else {
            get_latest_review(&groups[k].1)
        };
        standing.push((latest, requested));
        k = k + 1;
    }
    proof {
        assert(standing.deep_view() =~= spec_latest_reviews(pr@));
    }
    standing
}

/// The login of the viewer: the configured user name, and the empty login
/// where none is configured.
pub open spec fn viewer(config: AppConfigView) -> Seq<char> {
    match config.username {
        Some(login) => login,
        None => Seq::empty(),
    }
}

/// Whether the viewer wrote the pull request.
pub open spec fn spec_is_mine(pr: GithubPRWithReviewsView, config: AppConfigView) -> bool {
    pr.pr.login == viewer(config)
}

/// The approvals that the repository of the pull request asks for; one
/// where the address of the pull request names no repository.
pub open spec fn spec_needed_approvals(pr: GithubPRWithReviewsView, config: AppConfigView) -> usize {
    match repo_name_of(pr.pr.repository_url) {
        Some(repo_name) => config.required_approvals(repo_name),
        None => 1,
    }
}

/// Whether a standing review counts as `state`: it has that state and its
/// user is not asked to review again.
pub open spec fn counts_as(standing: (ReviewView, bool), state: ReviewState) -> bool {
    !standing.1 && standing.0.state == Some(state)
}

/// Holds of the standing reviews that count as `state`.
pub open spec fn counting_as(state: ReviewState) -> spec_fn((ReviewView, bool)) -> bool {
    |standing: (ReviewView, bool)| counts_as(standing, state)
}

/// The number of users whose approval stands.
pub open spec fn approvals(pr: GithubPRWithReviewsView) -> nat {
    spec_latest_reviews(pr).filter(counting_as(ReviewState::Approved)).len()
}

/// Whether the request for changes of some user stands.
pub open spec fn changes_requested(pr: GithubPRWithReviewsView) -> bool {
    exists|k: int|
        0 <= k < spec_latest_reviews(pr).len() && counts_as(
            #[trigger] spec_latest_reviews(pr)[k],
            ReviewState::ChangesRequested,
        )
}

/// The pull request is the viewer's and a request for changes stands.
pub open spec fn spec_mine_changes_requested(
    pr: GithubPRWithReviewsView,
    config: AppConfigView,
) -> bool {
    spec_is_mine(pr, config) && changes_requested(pr)
}

/// The pull request is the viewer's and has the approvals that its
/// repository asks for.
pub open spec fn spec_mine_approved(pr: GithubPRWithReviewsView, config: AppConfigView) -> bool {
    spec_is_mine(pr, config) && approvals(pr) >= spec_needed_approvals(pr, config)
}

/// The pull request is the viewer's.
pub open spec fn spec_mine_pending(pr: GithubPRWithReviewsView, config: AppConfigView) -> bool {
    spec_is_mine(pr, config)
}

/// The viewer reviewed before and is asked again, or the viewer's latest
/// review was dismissed.
pub open spec fn spec_re_review(pr: GithubPRWithReviewsView, config: AppConfigView) -> bool {
    &&& !spec_is_mine(pr, config)
    &&& has_reviewed(pr.reviews, viewer(config))
    &&& (is_requested(pr, viewer(config)) || latest_review(
        reviews_of(pr.reviews, viewer(config)),
    ).state == Some(ReviewState::Dismissed))
}

/// Fewer people reviewed than approvals are required, and the viewer is not
/// one of them.
pub open spec fn spec_review_missing(pr: GithubPRWithReviewsView, config: AppConfigView) -> bool {
    &&& !spec_is_mine(pr, config)
    &&& reviewing_logins(pr.reviews).len() < spec_needed_approvals(pr, config)
    &&& !has_reviewed(pr.reviews, viewer(config))
}

/// The pull request is not the viewer's.
pub open spec fn spec_review_requested(pr: GithubPRWithReviewsView, config: AppConfigView) -> bool {
    !spec_is_mine(pr, config)
}

/// The login of the viewer.
pub fn viewer_login(config: &AppConfig) -> (login: String)
    ensures
        login@ == viewer(config@),
{
    match &config.username {
        Some(login) => login.clone(),
        None => String::new(),
    }
}

/// Whether the viewer wrote the pull request.
pub fn is_mine(pr_with_reviews: &GithubPRWithReviews, config: &AppConfig) -> (mine: bool)
    ensures
        mine == spec_is_mine(pr_with_reviews@, config@),
{
    let username = viewer_login(config);
    pr_with_reviews.pr.login == username
}

/// The key of the pull request's repository in the table of policies; `None`
/// where the address names no owner and repository.
pub fn pr_repo_name(pr_with_reviews: &GithubPRWithReviews) -> (name: Option<String>)
    ensures
        name.deep_view() == repo_name_of(pr_with_reviews@.pr.repository_url),
{
    if !names_owner_and_repo(pr_with_reviews.pr.repository_url.as_str()) {
        return None;
    }
    let (owner, repo) = get_owner_and_repo(pr_with_reviews.pr.repository_url.clone());
    proof {
        reveal_strlit("/");
        assert("/"@ =~= seq!['/']);
    }
    Some(owner.concat("/").concat(repo.as_str()))
}

/// The approvals that the repository of the pull request asks for.
pub fn needed_approvals(pr_with_reviews: &GithubPRWithReviews, config: &AppConfig) -> (needed: usize)
    ensures
        needed == spec_needed_approvals(pr_with_reviews@, config@),
{
    match pr_repo_name(pr_with_reviews) {
        Some(pr_repo_name) => config.needed_approvals(&pr_repo_name),
        None => 1,
    }
}

/// Whether the standing review counts as `state`.
pub fn review_is(review: &(Review, bool), state: ReviewState) -> (counts: bool)
    ensures
        counts == counts_as(review.deep_view(), state),
{
    if review.1 {
        return false;
    }
    match review.0.state {
        Some(found) => found == state,
        None => false,
    }
}

/// Whether the pull request is the viewer's.
pub fn mine_pending(pr_with_reviews: &GithubPRWithReviews, config: &AppConfig) -> (holds: bool)
    ensures
        holds == spec_mine_pending(pr_with_reviews@, config@),
{
    is_mine(pr_with_reviews, config)
}

/// Whether the pull request is the viewer's and has the approvals that its
/// repository asks for.
pub fn mine_approved(pr_with_reviews: &GithubPRWithReviews, config: &AppConfig) -> (holds: bool)
    ensures
        holds == spec_mine_approved(pr_with_reviews@, config@),
{
    if !is_mine(pr_with_reviews, config) {
        return false;
    }
    let needed_approvals = needed_approvals(pr_with_reviews, config);
    let all_latest_reviews = latest_reviews(pr_with_reviews);
    let ghost standing = all_latest_reviews.deep_view();
    let mut count: usize = 0;
    let mut k: usize = 0;
    proof {
        reveal(Seq::filter);
        assert(standing.take(0) =~= Seq::empty());
    }
    while k < all_latest_reviews.len()
        invariant
            k <= all_latest_reviews.len(),
            standing == all_latest_reviews.deep_view(),
            count <= k,
            count == standing.take(k as int).filter(counting_as(ReviewState::Approved)).len(),
        decreases all_latest_reviews.len() - k,
    {
        proof {
            assert(standing.take(k + 1) =~= standing.take(k as int).push(standing[k as int]));
            standing.take(k as int).lemma_filter_len_push(
                counting_as(ReviewState::Approved),
                standing[k as int],
            );
            assert(standing[k as int] == all_latest_reviews[k as int].deep_view());
        }
        if review_is(&all_latest_reviews[k], ReviewState::Approved) {
            count = count + 1;
        }
        k = k + 1;
    }
    proof {
        assert(standing.take(k as int) =~= standing);
    }
    count >= needed_approvals
}

/// Whether the pull request is the viewer's and a request for changes stands.
pub fn mine_changes_requested(pr_with_reviews: &GithubPRWithReviews, config: &AppConfig) -> (holds:
    bool)
    ensures
        holds == spec_mine_changes_requested(pr_with_reviews@, config@),
{
    if !is_mine(pr_with_reviews, config) {
        return false;
    }
    let all_latest_reviews = latest_reviews(pr_with_reviews);
    let ghost standing = all_latest_reviews.deep_view();
    let mut k: usize = 0;
    while k < all_latest_reviews.len()
        invariant
            k <= all_latest_reviews.len(),
            standing == all_latest_reviews.deep_view(),
            standing == spec_latest_reviews(pr_with_reviews@),
            spec_is_mine(pr_with_reviews@, config@),
            forall|j: int|
                0 <= j < k ==> !counts_as(#[trigger] standing[j], ReviewState::ChangesRequested),
        decreases all_latest_reviews.len() - k,
    {
        proof {
            assert(standing[k as int] == all_latest_reviews[k as int].deep_view());
        }
        if review_is(&all_latest_reviews[k], ReviewState::ChangesRequested) {
            proof {
                assert(counts_as(
                    spec_latest_reviews(pr_with_reviews@)[k as int],
                    ReviewState::ChangesRequested,
                ));
            }
            return true;
        }
        k = k + 1;
    }
    false
}

/// Whether the viewer reviewed before and is to review again.
pub fn re_review(pr_with_reviews: &GithubPRWithReviews, config: &AppConfig) -> (holds: bool)
    ensures
        holds == spec_re_review(pr_with_reviews@, config@),
{
    if is_mine(pr_with_reviews, config) {
        return false;
    }
    let reviews_by_user = group_by_user(&pr_with_reviews.reviews);
    let username = viewer_login(config);
    let ghost all = pr_with_reviews@.reviews;
    proof {
        lemma_groups_follow_logins(reviews_by_user, all);
    }
    match find_group(&reviews_by_user, &username) {
        None => {
            proof {
                assert(!has_reviewed(all, username@));
            }
            false
        },
        Some(k) => {
            proof {
                assert(reviews_by_user[k as int].0@ == username@);
                assert(has_reviewed(all, username@));
            }
            let user_latest_review = get_latest_review(&reviews_by_user[k].1);
            let dismissed = match user_latest_review.state {
                Some(ReviewState::Dismissed) => true,
                _ => false,
            };
            is_user_review_requested(pr_with_reviews, &username) || dismissed
        },
    }
}

/// Whether fewer users reviewed than approvals are required, the viewer not
/// among them.
pub fn review_missing(pr_with_reviews: &GithubPRWithReviews, config: &AppConfig) -> (holds: bool)
    ensures
        holds == spec_review_missing(pr_with_reviews@, config@),
{
    if is_mine(pr_with_reviews, config) {
        return false;
    }
    let needed_approvals = needed_approvals(pr_with_reviews, config);
    let reviews_by_user = group_by_user(&pr_with_reviews.reviews);
    let unique_reviewers = reviews_by_user.len();
    let username = viewer_login(config);
    let ghost all = pr_with_reviews@.reviews;
    proof {
        lemma_groups_follow_logins(reviews_by_user, all);
    }
    let current_user_has_reviewed = match find_group(&reviews_by_user, &username) {
        Some(k) => {
            proof {
                assert(reviews_by_user[k as int].0@ == username@);
                assert(has_reviewed(all, username@));
            }
            true
        },
        None => {
            proof {
                assert(!has_reviewed(all, username@));
            }
            false
        },
    };
    unique_reviewers < needed_approvals && !current_user_has_reviewed
}

/// Whether the pull request is not the viewer's.
pub fn review_requested(pr_with_reviews: &GithubPRWithReviews, config: &AppConfig) -> (holds: bool)
    ensures
        holds == spec_review_requested(pr_with_reviews@, config@),
{
    !is_mine(pr_with_reviews, config)
}

/// The conditions that the rules test.
#[derive(Debug, Clone, Copy, PartialEq, Eq, Structural)]
pub enum Predicate {
    MineChangesRequested,
    MineApproved,
    MinePending,
    ReReview,
    ReviewMissing,
    ReviewRequested,
}

impl Predicate {
    /// Whether the condition holds of the pull request.
    pub open spec fn spec_holds(self, pr: GithubPRWithReviewsView, config: AppConfigView) -> bool {
        match self {
            Predicate::MineChangesRequested => spec_mine_changes_requested(pr, config),
            Predicate::MineApproved => spec_mine_approved(pr, config),
            Predicate::MinePending => spec_mine_pending(pr, config),
            Predicate::ReReview => spec_re_review(pr, config),
            Predicate::ReviewMissing => spec_review_missing(pr, config),
            Predicate::ReviewRequested => spec_review_requested(pr, config),
        }
    }

    /// Tests the condition on the pull request.
    pub fn holds(self, pr_with_reviews: &GithubPRWithReviews, config: &AppConfig) -> (holds: bool)
        ensures
            holds == self.spec_holds(pr_with_reviews@, config@),
    {
        match self {
            Predicate::MineChangesRequested => mine_changes_requested(pr_with_reviews, config),
            Predicate::MineApproved => mine_approved(pr_with_reviews, config),
            Predicate::MinePending => mine_pending(pr_with_reviews, config),
            Predicate::ReReview => re_review(pr_with_reviews, config),
            Predicate::ReviewMissing => review_missing(pr_with_reviews, config),
            Predicate::ReviewRequested => review_requested(pr_with_reviews, config),
        }
    }
}

/// A rule: the category that a pull request gets where the condition holds.
#[derive(Debug, Clone, Copy)]
pub struct CategoryPredicate {
    pub predicate: Predicate,
    pub category: PullRequestCategory,
}

/// The rules in the order of their priority.
pub open spec fn rule_chain() -> Seq<CategoryPredicate> {
    seq![
        CategoryPredicate {
            predicate: Predicate::MineChangesRequested,
            category: PullRequestCategory::MineChangesRequested,
        },
        CategoryPredicate {
            predicate: Predicate::MineApproved,
            category: PullRequestCategory::MineApproved,
        },
        CategoryPredicate {
            predicate: Predicate::MinePending,
            category: PullRequestCategory::MinePending,
        },
        CategoryPredicate {
            predicate: Predicate::ReReview,
            category: PullRequestCategory::Rereview,
        },
        CategoryPredicate {
            predicate: Predicate::ReviewMissing,
            category: PullRequestCategory::ReviewMissing,
        },
        CategoryPredicate {
            predicate: Predicate::ReviewRequested,
            category: PullRequestCategory::ReviewRequested,
        },
    ]
}

/// The rules in the order of their priority.
pub fn pr_categories() -> (rules: Vec<CategoryPredicate>)
    ensures
        rules@ == rule_chain(),
{
    let mut rules: Vec<CategoryPredicate> = Vec::new();
    rules.push(
        CategoryPredicate {
            predicate: Predicate::MineChangesRequested,
            category: PullRequestCategory::MineChangesRequested,
        },
    );
    rules.push(
        CategoryPredicate {
            predicate: Predicate::MineApproved,
            category: PullRequestCategory::MineApproved,
        },
    );
    rules.push(
        CategoryPredicate {
            predicate: Predicate::MinePending,
            category: PullRequestCategory::MinePending,
        },
    );
    rules.push(
        CategoryPredicate {
            predicate: Predicate::ReReview,
            category: PullRequestCategory::Rereview,
        },
    );
    rules.push(
        CategoryPredicate {
            predicate: Predicate::ReviewMissing,
            category: PullRequestCategory::ReviewMissing,
        },
    );
    rules.push(
        CategoryPredicate {
            predicate: Predicate::ReviewRequested,
            category: PullRequestCategory::ReviewRequested,
        },
    );
    proof {
        assert(rules@ =~= rule_chain());
    }
    rules
}

/// The category of the first rule in `rules` whose condition holds, if any
/// holds.
pub open spec fn first_match(
    rules: Seq<CategoryPredicate>,
    pr: GithubPRWithReviewsView,
    config: AppConfigView,
) -> Option<PullRequestCategory>
    decreases rules.len(),
{
    if rules.len() == 0 {
        None
    } else if rules.first().predicate.spec_holds(pr, config) {
        Some(rules.first().category)
    } else {
        first_match(rules.drop_first(), pr, config)
    }
}

/// The category of a pull request. Of the viewer's own: changes requested
/// before approved before pending. Of the others: to review again before
/// review missing before review requested.
pub open spec fn spec_category(
    pr: GithubPRWithReviewsView,
    config: AppConfigView,
) -> PullRequestCategory {
    if spec_is_mine(pr, config) {
        if changes_requested(pr) {
            PullRequestCategory::MineChangesRequested
        } else if approvals(pr) >= spec_needed_approvals(pr, config) {
            PullRequestCategory::MineApproved
        } else {
            PullRequestCategory::MinePending
        }
    } else {
        if spec_re_review(pr, config) {
            PullRequestCategory::Rereview
        } else if spec_review_missing(pr, config) {
            PullRequestCategory::ReviewMissing
        } else {
            PullRequestCategory::ReviewRequested
        }
    }
}

/// Evaluates the rules in their order and gives the category of the first
/// whose condition holds; `None` where no condition holds.
pub fn first_matching_category(
    rules: &Vec<CategoryPredicate>,
    pr_with_reviews: &GithubPRWithReviews,
    config: &AppConfig,
) -> (category: Option<PullRequestCategory>)
    ensures
        category == first_match(rules@, pr_with_reviews@, config@),
{
    let mut k: usize = 0;
    proof {
        assert(rules@.skip(0) =~= rules@);
    }
    while k < rules.len()
        invariant
            k <= rules.len(),
            first_match(rules@, pr_with_reviews@, config@) == first_match(
                rules@.skip(k as int),
                pr_with_reviews@,
                config@,
            ),
        decreases rules.len() - k,
    {
        proof {
            assert(rules@.skip(k as int).drop_first() =~= rules@.skip(k + 1));
        }
        if rules[k].predicate.holds(pr_with_reviews, config) {
            return Some(rules[k].category);
        }
        k = k + 1;
    }
    None
}

/// Every pull request falls under a rule of the chain, and the first rule
/// that it falls under gives the category that the priorities describe.
pub proof fn lemma_rule_chain_is_total(pr: GithubPRWithReviewsView, config: AppConfigView)
    ensures
        first_match(rule_chain(), pr, config) == Some(spec_category(pr, config)),
{
    let chain = rule_chain();
    let c1 = chain.drop_first();
    let c2 = c1.drop_first();
    let c3 = c2.drop_first();
    let c4 = c3.drop_first();
    let c5 = c4.drop_first();
    assert(chain.first().predicate == Predicate::MineChangesRequested);
    assert(c1.first().predicate == Predicate::MineApproved);
    assert(c2.first().predicate == Predicate::MinePending);
    assert(c3.first().predicate == Predicate::ReReview);
    assert(c4.first().predicate == Predicate::ReviewMissing);
    assert(c5.first().predicate == Predicate::ReviewRequested);
    assert(first_match(c5, pr, config) == if spec_review_requested(pr, config) {
        Some(PullRequestCategory::ReviewRequested)
    } else {
        first_match(c5.drop_first(), pr, config)
    });
    assert(first_match(c4, pr, config) == if spec_review_missing(pr, config) {
        Some(PullRequestCategory::ReviewMissing)
    } else {
        first_match(c5, pr, config)
    });
    assert(first_match(c3, pr, config) == if spec_re_review(pr, config) {
        Some(PullRequestCategory::Rereview)
    } else {
        first_match(c4, pr, config)
    });
    assert(first_match(c2, pr, config) == if spec_mine_pending(pr, config) {
        Some(PullRequestCategory::MinePending)
    } else {
        first_match(c3, pr, config)
    });
    assert(first_match(c1, pr, config) == if spec_mine_approved(pr, config) {
        Some(PullRequestCategory::MineApproved)
    } else {
        first_match(c2, pr, config)
    });
}

/// The category depends on the configuration only through the viewer and
/// through what the pull request's repository is asked for.
pub proof fn lemma_category_depends_on(
    pr: GithubPRWithReviewsView,
    config: AppConfigView,
    other: AppConfigView,
)
    requires
        config.username == other.username,
        spec_needed_approvals(pr, config) == spec_needed_approvals(pr, other),
    ensures
        spec_category(pr, config) == spec_category(pr, other),
{
}

/// The latest review is the last of those with the greatest time: it stands
/// at a place `i` such that no review has a greater time and every review
/// after it has a smaller one.
pub proof fn lemma_latest_review_is_last_maximum(reviews: Seq<ReviewView>) -> (i: int)
    requires
        reviews.len() > 0,
    ensures
        0 <= i < reviews.len(),
        reviews[i] == latest_review(reviews),
        forall|j: int|
            0 <= j < reviews.len() ==> time_key(#[trigger] reviews[j]) <= time_key(reviews[i]),
        forall|j: int| i < j < reviews.len() ==> time_key(#[trigger] reviews[j]) < time_key(reviews[i]),
    decreases reviews.len(),
{
    if reviews.len() == 1 {
        0
    } else {
        let rest = reviews.drop_last();
        let earlier = lemma_latest_review_is_last_maximum(rest);
        assert forall|j: int| 0 <= j < rest.len() implies #[trigger] reviews[j] == rest[j] by {}
        if time_key(reviews.last()) >= time_key(latest_review(rest)) {
            reviews.len() - 1
        } else {
            earlier
        }
    }
}

/// A user voted exactly if one of the user's reviews is a vote.
pub proof fn lemma_has_voted(reviews: Seq<ReviewView>, login: Seq<char>)
    ensures
        has_voted(reviews, login) <==> exists|j: int|
            0 <= j < reviews.len() && (#[trigger] reviews[j]).user == Some(login) && is_vote(
                reviews[j],
            ),
{
    let own = reviews_of(reviews, login);
    let cast = own.filter(votes());
    if has_voted(reviews, login) {
        own.lemma_filter_pred(votes(), 0);
        assert(cast.contains(cast[0]));
        own.lemma_filter_contains_rev(votes(), cast[0]);
        let a = choose|a: int| 0 <= a < own.len() && own[a] == cast[0];
        reviews.lemma_filter_pred(by_reviewer(login), a);
        assert(own.contains(own[a]));
        reviews.lemma_filter_contains_rev(by_reviewer(login), own[a]);
        let j = choose|j: int| 0 <= j < reviews.len() && reviews[j] == own[a];
        assert(reviews[j].user == Some(login) && is_vote(reviews[j]));
    }
    if exists|j: int|
        0 <= j < reviews.len() && (#[trigger] reviews[j]).user == Some(login) && is_vote(
            reviews[j],
        ) {
        let j = choose|j: int|
            0 <= j < reviews.len() && (#[trigger] reviews[j]).user == Some(login) && is_vote(
                reviews[j],
            );
        reviews.lemma_filter_contains(by_reviewer(login), j);
        let a = choose|a: int| 0 <= a < own.len() && own[a] == reviews[j];
        own.lemma_filter_contains(votes(), a);
    }
}

/// The review of a user that counts is one of that user's reviews. Where the
/// user never voted, no review of the user is later than it. Where the user
/// voted, it is a vote or dismissed, and no vote and no dismissed review of
/// the user is later than it.
pub proof fn lemma_effective_review_is_not_superseded(reviews: Seq<ReviewView>, login: Seq<char>)
    requires
        has_reviewed(reviews, login),
    ensures
        reviews.contains(effective_review(reviews, login)),
        effective_review(reviews, login).user == Some(login),
        !has_voted(reviews, login) ==> forall|j: int|
            0 <= j < reviews.len() && (#[trigger] reviews[j]).user == Some(login) ==> time_key(
                reviews[j],
            ) <= time_key(effective_review(reviews, login)),
        has_voted(reviews, login) ==> is_decisive(effective_review(reviews, login)),
        has_voted(reviews, login) ==> forall|j: int|
            0 <= j < reviews.len() && (#[trigger] reviews[j]).user == Some(login) && is_decisive(
                reviews[j],
            ) ==> time_key(reviews[j]) <= time_key(effective_review(reviews, login)),
{
    let own = reviews_of(reviews, login);
    let firm = own.filter(decisive());
    let counted = effective_review(reviews, login);
    assert forall|j: int|
        0 <= j < reviews.len() && (#[trigger] reviews[j]).user == Some(login) implies own.contains(
        reviews[j],
    ) by {
        reviews.lemma_filter_contains(by_reviewer(login), j);
    }
    if has_voted(reviews, login) {
        lemma_vote_is_decisive(own);
        let i = lemma_latest_review_is_last_maximum(firm);
        own.lemma_filter_pred(decisive(), i);
        assert(firm.contains(firm[i]));
        own.lemma_filter_contains_rev(decisive(), firm[i]);
        let a = choose|a: int| 0 <= a < own.len() && own[a] == firm[i];
        reviews.lemma_filter_pred(by_reviewer(login), a);
        assert(own.contains(own[a]));
        reviews.lemma_filter_contains_rev(by_reviewer(login), own[a]);
        assert forall|j: int|
            0 <= j < reviews.len() && (#[trigger] reviews[j]).user == Some(login) && is_decisive(
                reviews[j],
            ) implies time_key(reviews[j]) <= time_key(counted) by {
            let a = choose|a: int| 0 <= a < own.len() && own[a] == reviews[j];
            own.lemma_filter_contains(decisive(), a);
            let b = choose|b: int| 0 <= b < firm.len() && firm[b] == reviews[j];
            assert(time_key(firm[b]) <= time_key(firm[i]));
        }
    } else {
        let i = lemma_latest_review_is_last_maximum(own);
        reviews.lemma_filter_pred(by_reviewer(login), i);
        assert(own.contains(own[i]));
        reviews.lemma_filter_contains_rev(by_reviewer(login), own[i]);
        assert forall|j: int|
            0 <= j < reviews.len() && (#[trigger] reviews[j]).user == Some(login) implies time_key(
            reviews[j],
        ) <= time_key(counted) by {
            let a = choose|a: int| 0 <= a < own.len() && own[a] == reviews[j];
            assert(time_key(own[a]) <= time_key(own[i]));
        }
    }
}

/// The pull request with `login` added to the users asked to review.
pub open spec fn with_request(pr: GithubPRWithReviewsView, login: Seq<char>) -> GithubPRWithReviewsView {
    GithubPRWithReviewsView {
        reviewers: GithubPRReviewResponseView { users: pr.reviewers.users.push(login) },
        ..pr
    }
}

/// Where two sequences differ in one place only, and the element of the first
/// passes a filter that the element of the second does not pass, one element
/// fewer of the second passes.
proof fn lemma_filter_one_fewer<A>(
    first: Seq<A>,
    second: Seq<A>,
    wanted: spec_fn(A) -> bool,
    place: int,
)
    requires
        first.len() == second.len(),
        0 <= place < first.len(),
        forall|k: int| 0 <= k < first.len() && k != place ==> first[k] == second[k],
        wanted(first[place]),
        !wanted(second[place]),
    ensures
        second.filter(wanted).len() + 1 == first.filter(wanted).len(),
    decreases first.len(),
{
    let a = first.drop_last();
    let b = second.drop_last();
    assert(first =~= a.push(first.last()));
    assert(second =~= b.push(second.last()));
    a.lemma_filter_len_push(wanted, first.last());
    b.lemma_filter_len_push(wanted, second.last());
    if place == first.len() - 1 {
        assert(a =~= b);
    } else {
        assert(first[first.len() - 1] == second[second.len() - 1]);
        lemma_filter_one_fewer(a, b, wanted, place);
    }
}

/// Asking a user whose approval stands to review again takes that approval
/// out of the count. Where the pull request is the viewer's and was approved
/// with exactly the approvals required, it is pending afterwards.
pub proof fn lemma_request_revokes_approval(
    pr: GithubPRWithReviewsView,
    config: AppConfigView,
    login: Seq<char>,
)
    requires
        has_reviewed(pr.reviews, login),
        effective_review(pr.reviews, login).state == Some(ReviewState::Approved),
        !is_requested(pr, login),
    ensures
        approvals(with_request(pr, login)) + 1 == approvals(pr),
        spec_category(pr, config) == PullRequestCategory::MineApproved && approvals(pr)
            == spec_needed_approvals(pr, config) ==> spec_category(with_request(pr, login), config)
            == PullRequestCategory::MinePending,
{
    let asked = with_request(pr, login);
    let logins = reviewing_logins(pr.reviews);
    let before = spec_latest_reviews(pr);
    let after = spec_latest_reviews(asked);
    lemma_reviewing_logins_contains(pr.reviews, login);
    lemma_reviewing_logins_distinct(pr.reviews);
    let place = choose|k: int| 0 <= k < logins.len() && logins[k] == login;
    assert forall|l: Seq<char>| is_requested(asked, l) == (is_requested(pr, l) || l == login) by {
        let users = pr.reviewers.users;
        if users.contains(l) {
            let k = choose|k: int| 0 <= k < users.len() && users[k] == l;
            assert(users.push(login)[k] == l);
        }
        if l == login {
            assert(users.push(login)[users.len() as int] == login);
        }
    }
    assert forall|k: int| 0 <= k < before.len() && k != place implies before[k] == after[k] by {
        assert(logins[k] != logins[place]);
    }
    assert(counts_as(before[place], ReviewState::Approved));
    assert(!counts_as(after[place], ReviewState::Approved));
    lemma_filter_one_fewer(before, after, counting_as(ReviewState::Approved), place);
    if changes_requested(asked) {
        let k = choose|k: int|
            0 <= k < after.len() && counts_as(#[trigger] after[k], ReviewState::ChangesRequested);
        assert(counts_as(before[k], ReviewState::ChangesRequested));
    }
}

/// Holds of the logins whose standing review counts as `state`.
pub open spec fn standing_as(pr: GithubPRWithReviewsView, state: ReviewState) -> spec_fn(
    Seq<char>,
) -> bool {
    |login: Seq<char>|
        !is_requested(pr, login) && effective_review(pr.reviews, login).state == Some(state)
}

/// The users who reviewed and whose standing review counts as `state`.
pub open spec fn users_standing_as(pr: GithubPRWithReviewsView, state: ReviewState) -> Set<
    Seq<char>,
> {
    Set::new(
        |login: Seq<char>| has_reviewed(pr.reviews, login) && standing_as(pr, state)(login),
    )
}

/// Two sequences of one length, of which the elements at each place pass
/// their filters together, have equally many elements that pass.
proof fn lemma_filter_in_step<A, B>(
    first: Seq<A>,
    second: Seq<B>,
    of_first: spec_fn(A) -> bool,
    of_second: spec_fn(B) -> bool,
)
    requires
        first.len() == second.len(),
        forall|k: int| 0 <= k < first.len() ==> of_first(first[k]) == of_second(second[k]),
    ensures
        first.filter(of_first).len() == second.filter(of_second).len(),
    decreases first.len(),
{
    if first.len() == 0 {
        reveal(Seq::filter);
    } else {
        let a = first.drop_last();
        let b = second.drop_last();
        assert(first =~= a.push(first.last()));
        assert(second =~= b.push(second.last()));
        a.lemma_filter_len_push(of_first, first.last());
        b.lemma_filter_len_push(of_second, second.last());
        assert forall|k: int| 0 <= k < a.len() implies of_first(a[k]) == of_second(b[k]) by {
            assert(a[k] == first[k]);
            assert(b[k] == second[k]);
        }
        lemma_filter_in_step(a, b, of_first, of_second);
        assert(of_first(first[first.len() - 1]) == of_second(second[second.len() - 1]));
    }
}

/// What passes a filter on a sequence without repetition is without
/// repetition, and holds exactly the elements that pass.
proof fn lemma_filter_distinct<A>(items: Seq<A>, wanted: spec_fn(A) -> bool)
    requires
        items.no_duplicates(),
    ensures
        items.filter(wanted).no_duplicates(),
        forall|x: A| #[trigger] items.filter(wanted).contains(x) <==> items.contains(x) && wanted(x),
    decreases items.len(),
{
    if items.len() == 0 {
        reveal(Seq::filter);
    } else {
        let rest = items.drop_last();
        let last = items.last();
        assert(items =~= rest.push(last));
        rest.lemma_filter_push(last, wanted);
        lemma_filter_distinct(rest, wanted);
        let kept = rest.filter(wanted);
        assert(!rest.contains(last)) by {
            if rest.contains(last) {
                let k = choose|k: int| 0 <= k < rest.len() && rest[k] == last;
                assert(items[k] == items[items.len() - 1]);
            }
        }
        assert forall|x: A| #[trigger] items.filter(wanted).contains(x) <==> items.contains(x)
            && wanted(x) by {
            if items.contains(x) {
                let k = choose|k: int| 0 <= k < items.len() && items[k] == x;
                if k < rest.len() {
                    assert(rest[k] == x);
                }
            }
            if rest.contains(x) {
                let k = choose|k: int| 0 <= k < rest.len() && rest[k] == x;
                assert(items[k] == x);
            }
            if wanted(last) {
                assert(kept.push(last)[kept.len() as int] == last);
                if kept.contains(x) {
                    let k = choose|k: int| 0 <= k < kept.len() && kept[k] == x;
                    assert(kept.push(last)[k] == x);
                }
                if kept.push(last).contains(x) {
                    let k = choose|k: int| 0 <= k < kept.push(last).len() && kept.push(last)[k] == x;
                    if k < kept.len() {
                        assert(kept[k] == x);
                    }
                }
            }
            assert(items[items.len() - 1] == last);
        }
        if wanted(last) {
            assert(!kept.contains(last));
        }
    }
}

/// The number of standing reviews that count as `state` is the number of
/// users whose standing review counts so. It does not depend on the order in
/// which the reviews or their users are gone through.
pub proof fn lemma_count_is_number_of_users(pr: GithubPRWithReviewsView, state: ReviewState)
    ensures
        users_standing_as(pr, state).finite(),
        spec_latest_reviews(pr).filter(counting_as(state)).len() == users_standing_as(
            pr,
            state,
        ).len(),
{
    let logins = reviewing_logins(pr.reviews);
    let standing = spec_latest_reviews(pr);
    let chosen = logins.filter(standing_as(pr, state));
    lemma_filter_in_step(logins, standing, standing_as(pr, state), counting_as(state));
    lemma_reviewing_logins_distinct(pr.reviews);
    lemma_filter_distinct(logins, standing_as(pr, state));
    chosen.unique_seq_to_set();
    vstd::seq_lib::seq_to_set_is_finite(chosen);
    assert forall|login: Seq<char>| chosen.to_set().contains(login) <==> users_standing_as(
        pr,
        state,
    ).contains(login) by {
        lemma_reviewing_logins_contains(pr.reviews, login);
    }
    assert(chosen.to_set() =~= users_standing_as(pr, state));
}

/// The approvals are as many as there are users whose approval stands, and a
/// request for changes stands exactly if it is the standing review of some
/// user who is not asked to review again.
pub proof fn lemma_counts_are_of_users(pr: GithubPRWithReviewsView)
    ensures
        approvals(pr) == users_standing_as(pr, ReviewState::Approved).len(),
        changes_requested(pr) <==> exists|login: Seq<char>|
            has_reviewed(pr.reviews, login) && !is_requested(pr, login) && (
            #[trigger] effective_review(pr.reviews, login)).state == Some(
                ReviewState::ChangesRequested,
            ),
{
    lemma_count_is_number_of_users(pr, ReviewState::Approved);
    let logins = reviewing_logins(pr.reviews);
    let standing = spec_latest_reviews(pr);
    if changes_requested(pr) {
        let k = choose|k: int|
            0 <= k < standing.len() && counts_as(
                #[trigger] standing[k],
                ReviewState::ChangesRequested,
            );
        assert(logins.contains(logins[k]));
        lemma_reviewing_logins_contains(pr.reviews, logins[k]);
        assert(effective_review(pr.reviews, logins[k]).state == Some(
            ReviewState::ChangesRequested,
        ));
    }
    if exists|login: Seq<char>|
        has_reviewed(pr.reviews, login) && !is_requested(pr, login) && (
        #[trigger] effective_review(pr.reviews, login)).state == Some(
            ReviewState::ChangesRequested,
        ) {
        let login = choose|login: Seq<char>|
            has_reviewed(pr.reviews, login) && !is_requested(pr, login) && (
            #[trigger] effective_review(pr.reviews, login)).state == Some(
                ReviewState::ChangesRequested,
            );
        lemma_reviewing_logins_contains(pr.reviews, login);
        let k = choose|k: int| 0 <= k < logins.len() && logins[k] == login;
        assert(counts_as(standing[k], ReviewState::ChangesRequested));
    }
}

/// The category does not depend on the order in which the reviews or the
/// users asked to review are listed. Two pull requests that agree in who
/// reviewed, in the review of each user that counts, in who is asked to
/// review, and in the state of the viewer's latest review have one category.
pub proof fn lemma_category_does_not_depend_on_order(
    pr: GithubPRWithReviewsView,
    other: GithubPRWithReviewsView,
    config: AppConfigView,
)
    requires
        other.pr == pr.pr,
        forall|login: Seq<char>| #[trigger]
            has_reviewed(pr.reviews, login) == has_reviewed(other.reviews, login),
        forall|login: Seq<char>|
            has_reviewed(pr.reviews, login) ==> #[trigger] effective_review(pr.reviews, login)
                == effective_review(other.reviews, login),
        forall|login: Seq<char>| #[trigger] is_requested(pr, login) == is_requested(other, login),
        has_reviewed(pr.reviews, viewer(config)) ==> latest_review(
            reviews_of(pr.reviews, viewer(config)),
        ).state == latest_review(reviews_of(other.reviews, viewer(config))).state,
    ensures
        approvals(pr) == approvals(other),
        changes_requested(pr) == changes_requested(other),
        reviewing_logins(pr.reviews).len() == reviewing_logins(other.reviews).len(),
        spec_category(pr, config) == spec_category(other, config),
{
    lemma_count_is_number_of_users(pr, ReviewState::Approved);
    lemma_count_is_number_of_users(other, ReviewState::Approved);
    assert forall|login: Seq<char>|
        users_standing_as(pr, ReviewState::Approved).contains(login) == users_standing_as(
            other,
            ReviewState::Approved,
        ).contains(login) by {
        assert(has_reviewed(pr.reviews, login) == has_reviewed(other.reviews, login));
        assert(is_requested(pr, login) == is_requested(other, login));
        if has_reviewed(pr.reviews, login) {
            assert(effective_review(pr.reviews, login) == effective_review(other.reviews, login));
        }
    }
    assert(users_standing_as(pr, ReviewState::Approved) =~= users_standing_as(
        other,
        ReviewState::Approved,
    ));

    lemma_counts_are_of_users(pr);
    lemma_counts_are_of_users(other);
    if changes_requested(pr) {
        let login = choose|login: Seq<char>|
            has_reviewed(pr.reviews, login) && !is_requested(pr, login) && (
            #[trigger] effective_review(pr.reviews, login)).state == Some(
                ReviewState::ChangesRequested,
            );
        assert(has_reviewed(pr.reviews, login) == has_reviewed(other.reviews, login));
        assert(is_requested(pr, login) == is_requested(other, login));
        assert(effective_review(other.reviews, login).state == Some(
            ReviewState::ChangesRequested,
        ));
    }
    if changes_requested(other) {
        let login = choose|login: Seq<char>|
            has_reviewed(other.reviews, login) && !is_requested(other, login) && (
            #[trigger] effective_review(other.reviews, login)).state == Some(
                ReviewState::ChangesRequested,
            );
        assert(has_reviewed(pr.reviews, login) == has_reviewed(other.reviews, login));
        assert(is_requested(pr, login) == is_requested(other, login));
        assert(effective_review(pr.reviews, login) == effective_review(other.reviews, login));
    }

    let mine = reviewing_logins(pr.reviews);
    let theirs = reviewing_logins(other.reviews);
    lemma_reviewing_logins_distinct(pr.reviews);
    lemma_reviewing_logins_distinct(other.reviews);
    assert forall|login: Seq<char>| mine.to_set().contains(login) == theirs.to_set().contains(
        login,
    ) by {
        lemma_reviewing_logins_contains(pr.reviews, login);
        lemma_reviewing_logins_contains(other.reviews, login);
        assert(has_reviewed(pr.reviews, login) == has_reviewed(other.reviews, login));
    }
    assert(mine.to_set() =~= theirs.to_set());
    mine.unique_seq_to_set();
    theirs.unique_seq_to_set();

    assert(has_reviewed(pr.reviews, viewer(config)) == has_reviewed(
        other.reviews,
        viewer(config),
    ));
    assert(is_requested(pr, viewer(config)) == is_requested(other, viewer(config)));
}

} // verus!
