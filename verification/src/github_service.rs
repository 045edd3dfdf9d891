//! What the code-hosting service reports of a pull request: the pull request
//! itself, the reviews submitted on it and the users currently asked to review.

use vstd::prelude::*;
use vstd::string::StrSliceExecFns;

verus! {

/// The verdict of a review.
#[derive(Debug, Clone, Copy, PartialEq, Eq, Structural)]
pub enum ReviewState {
    Approved,
    ChangesRequested,
    Commented,
    Dismissed,
    Pending,
}

/// One submitted review. `user` is the login of who submitted it, absent where
/// the service could not name that user. `submitted_at` counts nanoseconds
/// since the Unix epoch.
#[derive(Debug)]
pub struct Review {
    pub user: Option<String>,
    pub state: Option<ReviewState>,
    pub submitted_at: Option<i64>,
}

pub struct ReviewView {
    pub user: Option<Seq<char>>,
    pub state: Option<ReviewState>,
    pub submitted_at: Option<i64>,
}

impl View for Review {
    type V = ReviewView;

    open spec fn view(&self) -> ReviewView {
        ReviewView {
            user: self.user.deep_view(),
            state: self.state,
            submitted_at: self.submitted_at,
        }
    }
}

impl DeepView for Review {
    type V = ReviewView;

    open spec fn deep_view(&self) -> ReviewView {
        self@
    }
}

impl Clone for Review {
    fn clone(&self) -> (copy: Self)
        ensures
            copy@ == self@,
    {
        Review { user: self.user.clone(), state: self.state, submitted_at: self.submitted_at }
    }
}

/// A pull request as the search reports it. `login` and `avatar_url` are the
/// author's, `assignees` holds logins, and the two instants count nanoseconds
/// since the Unix epoch.
#[derive(Debug)]
pub struct PullRequest {
    pub id: u64,
    pub title: String,
    pub url: String,
    pub repository_url: String,
    pub login: String,
    pub avatar_url: String,
    pub html_url: String,
    pub created_at: i64,
    pub updated_at: i64,
    pub assignees: Vec<String>,
}

pub struct PullRequestView {
    pub id: u64,
    pub title: Seq<char>,
    pub url: Seq<char>,
    pub repository_url: Seq<char>,
    pub login: Seq<char>,
    pub avatar_url: Seq<char>,
    pub html_url: Seq<char>,
    pub created_at: i64,
    pub updated_at: i64,
    pub assignees: Seq<Seq<char>>,
}

impl View for PullRequest {
    type V = PullRequestView;

    open spec fn view(&self) -> PullRequestView {
        PullRequestView {
            id: self.id,
            title: self.title@,
            url: self.url@,
            repository_url: self.repository_url@,
            login: self.login@,
            avatar_url: self.avatar_url@,
            html_url: self.html_url@,
            created_at: self.created_at,
            updated_at: self.updated_at,
            assignees: self.assignees.deep_view(),
        }
    }
}

impl DeepView for PullRequest {
    type V = PullRequestView;

    open spec fn deep_view(&self) -> PullRequestView {
        self@
    }
}

/// The logins of the users who are currently asked to review a pull request.
#[derive(Debug)]
pub struct GithubPRReviewResponse {
    pub users: Vec<String>,
}

pub struct GithubPRReviewResponseView {
    pub users: Seq<Seq<char>>,
}

impl View for GithubPRReviewResponse {
    type V = GithubPRReviewResponseView;

    open spec fn view(&self) -> GithubPRReviewResponseView {
        GithubPRReviewResponseView { users: self.users.deep_view() }
    }
}

impl DeepView for GithubPRReviewResponse {
    type V = GithubPRReviewResponseView;

    open spec fn deep_view(&self) -> GithubPRReviewResponseView {
        self@
    }
}

/// A pull request together with its reviews and the users asked to review it.
#[derive(Debug)]
pub struct GithubPRWithReviews {
    pub pr: PullRequest,
    pub reviews: Vec<Review>,
    pub reviewers: GithubPRReviewResponse,
}

pub struct GithubPRWithReviewsView {
    pub pr: PullRequestView,
    pub reviews: Seq<ReviewView>,
    pub reviewers: GithubPRReviewResponseView,
}

impl View for GithubPRWithReviews {
    type V = GithubPRWithReviewsView;

    open spec fn view(&self) -> GithubPRWithReviewsView {
        GithubPRWithReviewsView {
            pr: self.pr@,
            reviews: self.reviews.deep_view(),
            reviewers: self.reviewers@,
        }
    }
}

impl DeepView for GithubPRWithReviews {
    type V = GithubPRWithReviewsView;

    open spec fn deep_view(&self) -> GithubPRWithReviewsView {
        self@
    }
}

impl GithubPRWithReviews {
    /// Puts a pull request together with what was fetched of its details. A
    /// detail that could not be fetched counts as empty: the pull request is
    /// kept, with no reviews or with nobody asked to review.
    pub fn with_details(
        pr: PullRequest,
        reviewers: Option<GithubPRReviewResponse>,
        reviews: Option<Vec<Review>>,
    ) -> (assembled: Self)
        ensures
            assembled@.pr == pr@,
            assembled@.reviews == match reviews {
                Some(fetched) => fetched.deep_view(),
                None => Seq::empty(),
            },
            assembled@.reviewers.users == match reviewers {
                Some(fetched) => fetched@.users,
                None => Seq::empty(),
            },
    {
        let ghost fetched_reviewers_missing = reviewers is None;
        let ghost fetched_reviews_missing = reviews is None;
        let reviewers = match reviewers {
            Some(fetched) => fetched,
            None => GithubPRReviewResponse { users: Vec::new() },
        };
        let reviews = match reviews {
            Some(fetched) => fetched,
            None => Vec::new(),
        };
        proof {
            if fetched_reviews_missing {
                assert(reviews.deep_view() =~= Seq::empty());
            }
            if fetched_reviewers_missing {
                assert(reviewers.users.deep_view() =~= Seq::empty());
            }
        }
        GithubPRWithReviews { pr, reviews, reviewers }
    }
}

/// The pieces of `text` that lie between the occurrences of `separator`. There
/// is always one piece more than there are separators.
pub open spec fn split_on(text: Seq<char>, separator: char) -> Seq<Seq<char>>
    decreases text.len(),
{
    if text.len() == 0 {
        seq![Seq::empty()]
    } else {
        let before = split_on(text.drop_last(), separator);
        if text.last() == separator {
            before.push(Seq::empty())
        } else {
            before.drop_last().push(before.last().push(text.last()))
        }
    }
}

/// Whether the address has the fifth and sixth piece between slashes, which
/// in `https://host/repos/owner/repository` are the owner and the repository.
pub open spec fn has_owner_and_repo(repository_url: Seq<char>) -> bool {
    split_on(repository_url, '/').len() > 5
}

/// The key of a repository in the table of policies, `owner/repository`;
/// `None` where the address names no owner and repository.
pub open spec fn repo_name_of(repository_url: Seq<char>) -> Option<Seq<char>> {
    let pieces = split_on(repository_url, '/');
    if has_owner_and_repo(repository_url) {
        Some(pieces[4] + seq!['/'] + pieces[5])
    } else {
        None
    }
}

/// A text has at least one piece.
proof fn lemma_split_on_nonempty(text: Seq<char>, separator: char)
    ensures
        split_on(text, separator).len() >= 1,
    decreases text.len(),
{
    if text.len() > 0 {
        lemma_split_on_nonempty(text.drop_last(), separator);
    }
}

/// The piece of `text` with the given index among those between slashes, if
/// there are that many.
fn segment(text: &str, wanted: usize) -> (piece: Option<&str>)
    ensures
        match piece {
            Some(found) => wanted < split_on(text@, '/').len() && found@ == split_on(
                text@,
                '/',
            )[wanted as int],
            None => wanted >= split_on(text@, '/').len(),
        },
{
    let length = text.unicode_len();
    let mut index: usize = 0;
    let mut start: usize = 0;
    let mut position: usize = 0;
    let chars = text.chars();
    proof {
        assert(text@.take(0) =~= Seq::<char>::empty());
        assert(text@.subrange(0, 0) =~= Seq::<char>::empty());
    }
    for c in it: chars
        invariant
            it.seq() == text@,
            length == text@.len(),
            position == it.index(),
            start <= position,
            index <= position,
            index <= wanted,
            index + 1 == split_on(text@.take(position as int), '/').len(),
            split_on(text@.take(position as int), '/').last() == text@.subrange(
                start as int,
                position as int,
            ),
    {
        let ghost before = text@.take(position as int);
        let ghost after = text@.take(position + 1);
        proof {
            assert(after.drop_last() =~= before);
            assert(after.last() == c);
            lemma_split_on_nonempty(before, '/');
        }
        if c == '/' {
            if index == wanted {
                let found = text.substring_char(start, position);
                proof {
                    lemma_split_on_prefix(text@, position + 1, '/');
                }
                return Some(found);
            }
            index = index + 1;
            start = position + 1;
            proof {
                assert(text@.subrange(start as int, start as int) =~= Seq::<char>::empty());
            }
        } else {
            proof {
                assert(text@.subrange(start as int, position + 1) =~= text@.subrange(
                    start as int,
                    position as int,
                ).push(c));
            }
        }
        position = position + 1;
    }
    proof {
        assert(text@.take(position as int) =~= text@);
    }
    if index == wanted {
        Some(text.substring_char(start, length))
    } else {
        None
    }
}

/// Every piece but the last of a prefix of `text` is a piece of `text`, at the
/// same place.
proof fn lemma_split_on_prefix(text: Seq<char>, end: int, separator: char)
    requires
        0 <= end <= text.len(),
    ensures
        split_on(text.take(end), separator).len() <= split_on(text, separator).len(),
        forall|k: int|
            0 <= k < split_on(text.take(end), separator).len() - 1 ==> split_on(
                text.take(end),
                separator,
            )[k] == #[trigger] split_on(text, separator)[k],
    decreases text.len() - end,
{
    if end == text.len() {
        assert(text.take(end) =~= text);
    } else {
        lemma_split_on_prefix(text, end + 1, separator);
        let shorter = text.take(end);
        let longer = text.take(end + 1);
        assert(longer.drop_last() =~= shorter);
        lemma_split_on_nonempty(shorter, separator);
        lemma_split_on_nonempty(longer, separator);
        assert forall|k: int| 0 <= k < split_on(shorter, separator).len() - 1 implies split_on(
            shorter,
            separator,
        )[k] == #[trigger] split_on(text, separator)[k] by {
            assert(split_on(shorter, separator)[k] == split_on(longer, separator)[k]);
        }
    }
}

/// Whether the address names an owner and a repository: whether it has a
/// fifth and a sixth piece between slashes.
pub fn names_owner_and_repo(repository_url: &str) -> (ok: bool)
    ensures
        ok == has_owner_and_repo(repository_url@),
{
    segment(repository_url, 5).is_some()
}

/// The owner and the repository that a repository address names: its fifth
/// and sixth piece between slashes.
pub fn get_owner_and_repo(repository_url: String) -> (names: (String, String))
    requires
        has_owner_and_repo(repository_url@),
    ensures
        names.0@ == split_on(repository_url@, '/')[4],
        names.1@ == split_on(repository_url@, '/')[5],
{
    let owner = segment(repository_url.as_str(), 4).unwrap();
    let repo = segment(repository_url.as_str(), 5).unwrap();
    (owner.to_string(), repo.to_string())
}

} // verus!
