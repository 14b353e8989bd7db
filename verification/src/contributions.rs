//! Contribution statistics: summing a contributor's weekly figures and
//! ranking the contributors by the lines they changed.

use vstd::prelude::*;
use vstd::set_lib::{lemma_int_range, lemma_subset_equality, set_int_range};

verus! {

/// One week of a contributor's activity: lines added and lines deleted.
#[derive(Debug)]
pub struct GithubWeek {
    pub a: u32,
    pub d: u32,
}

/// Who a contributor is.
#[derive(Debug)]
pub struct GithubAuthor {
    pub login: String,
    pub avatar_url: String,
}

/// A contributor's raw statistics: commits in total and activity by week.
#[derive(Debug)]
pub struct GithubContributor {
    pub total: u32,
    pub weeks: Vec<GithubWeek>,
    pub author: GithubAuthor,
}

/// A contributor's statistics summed over all weeks.
#[derive(Debug)]
pub struct Contribution {
    pub name: String,
    pub avatar: String,
    pub commits: u32,
    pub additions: u32,
    pub deletions: u32,
}

/// Lines added over all of `weeks`.
pub open spec fn added(weeks: Seq<GithubWeek>) -> nat
    decreases weeks.len(),
{
    if weeks.len() == 0 {
        0
    } else {
        added(weeks.drop_last()) + weeks.last().a as nat
    }
}

/// Lines deleted over all of `weeks`.
pub open spec fn deleted(weeks: Seq<GithubWeek>) -> nat
    decreases weeks.len(),
{
    if weeks.len() == 0 {
        0
    } else {
        deleted(weeks.drop_last()) + weeks.last().d as nat
    }
}

/// Both sums of the contributor fit the counters of a `Contribution`.
pub open spec fn countable(contributor: GithubContributor) -> bool {
    added(contributor.weeks@) <= u32::MAX && deleted(contributor.weeks@) <= u32::MAX
}

/// The `Contribution` that sums up `contributor`.
pub open spec fn summary(contributor: GithubContributor) -> Contribution {
    Contribution {
        name: contributor.author.login,
        avatar: contributor.author.avatar_url,
        commits: contributor.total,
        additions: added(contributor.weeks@) as u32,
        deletions: deleted(contributor.weeks@) as u32,
    }
}

/// The summaries of `contributors`, in their order.
pub open spec fn summaries(contributors: Seq<GithubContributor>) -> Seq<Contribution> {
    Seq::new(contributors.len(), |i: int| summary(contributors[i]))
}

/// Lines changed: additions and deletions together.
pub open spec fn lines(contribution: Contribution) -> nat {
    (contribution.additions + contribution.deletions) as nat
}

/// `output` holds the items of `input` from index `from` on, `output[i]`
/// being `input[origin[i]]`, by descending lines changed; items with equal
/// lines stand in the order they have in `input`.
pub open spec fn placed(
    input: Seq<Contribution>,
    output: Seq<Contribution>,
    origin: Seq<int>,
    from: int,
) -> bool {
    &&& origin.len() == output.len()
    &&& output.len() == input.len() - from
    &&& forall|i: int|
        0 <= i < origin.len() ==> from <= #[trigger] origin[i] < input.len() && output[i]
            == input[origin[i]]
    &&& forall|i: int, j: int|
        0 <= i < j < origin.len() ==> #[trigger] origin[i] != #[trigger] origin[j]
    &&& forall|i: int, j: int|
        0 <= i < j < output.len() ==> lines(#[trigger] output[i]) >= lines(#[trigger] output[j])
    &&& forall|i: int, j: int|
        0 <= i < j < origin.len() && lines(output[i]) == lines(output[j]) ==> #[trigger] origin[i]
            < #[trigger] origin[j]
}

/// `output` is `input` ranked: a rearrangement of all of it by descending
/// lines changed that keeps the order of items with equal lines.
pub open spec fn ranked(input: Seq<Contribution>, output: Seq<Contribution>) -> bool {
    exists|origin: Seq<int>| placed(input, output, origin, 0)
}

/// The sums over a prefix grow by the next week's figures and never exceed
/// the sums over all weeks.
proof fn lemma_prefix_sums(weeks: Seq<GithubWeek>, upto: int)
    requires
        0 <= upto <= weeks.len(),
    ensures
        added(weeks.take(upto)) <= added(weeks),
        deleted(weeks.take(upto)) <= deleted(weeks),
        upto < weeks.len() ==> added(weeks.take(upto + 1)) == added(weeks.take(upto))
            + weeks[upto].a,
        upto < weeks.len() ==> deleted(weeks.take(upto + 1)) == deleted(weeks.take(upto))
            + weeks[upto].d,
    decreases weeks.len(),
{
    if upto == weeks.len() {
        assert(weeks.take(upto) =~= weeks);
    } else {
        lemma_prefix_sums(weeks.drop_last(), upto);
        assert(weeks.drop_last().take(upto) =~= weeks.take(upto));
        assert(weeks.take(upto + 1).drop_last() =~= weeks.take(upto));
        assert(weeks.take(upto + 1).last() == weeks[upto]);
    }
}

impl Contribution {
    /// Lines changed, in a width that cannot overflow.
    pub fn lines_changed(&self) -> (total: u64)
        ensures
            total == lines(*self),
    {
        self.additions as u64 + self.deletions as u64
    }
}

impl GithubContributor {
    /// Whether both sums fit: the test to make before `summarize`.
    pub fn is_countable(&self) -> (fits: bool)
        ensures
            fits == countable(*self),
    {
        let mut additions: u64 = 0;
        let mut deletions: u64 = 0;
        let mut week: usize = 0;
        while week < self.weeks.len()
            invariant
                week <= self.weeks@.len(),
                additions == added(self.weeks@.take(week as int)),
                deletions == deleted(self.weeks@.take(week as int)),
                additions <= u32::MAX,
                deletions <= u32::MAX,
            decreases self.weeks@.len() - week,
        {
            proof {
                lemma_prefix_sums(self.weeks@, week as int);
                lemma_prefix_sums(self.weeks@, week + 1);
            }
            additions = additions + self.weeks[week].a as u64;
            deletions = deletions + self.weeks[week].d as u64;
            if additions > u32::MAX as u64 || deletions > u32::MAX as u64 {
                return false;
            }
            week = week + 1;
        }
        proof {
            assert(self.weeks@.take(week as int) =~= self.weeks@);
        }
        true
    }
}

/// Sums a contributor's weeks up.
pub fn summarize(contributor: GithubContributor) -> (contribution: Contribution)
    requires
        countable(contributor),
    ensures
        contribution == summary(contributor),
{
    let mut additions: u32 = 0;
    let mut deletions: u32 = 0;
    let mut week: usize = 0;
    while week < contributor.weeks.len()
        invariant
            week <= contributor.weeks@.len(),
            additions == added(contributor.weeks@.take(week as int)),
            deletions == deleted(contributor.weeks@.take(week as int)),
            countable(contributor),
        decreases contributor.weeks@.len() - week,
    {
        proof {
            lemma_prefix_sums(contributor.weeks@, week as int);
            lemma_prefix_sums(contributor.weeks@, week + 1);
        }
        additions = additions + contributor.weeks[week].a;
        deletions = deletions + contributor.weeks[week].d;
        week = week + 1;
    }
    proof {
        assert(contributor.weeks@.take(week as int) =~= contributor.weeks@);
    }
    Contribution {
        name: contributor.author.login,
        avatar: contributor.author.avatar_url,
        commits: contributor.total,
        additions,
        deletions,
    }
}

/// Whether every contributor is countable: the test to make before
/// `get_contributions`.
pub fn all_countable(contributors: &Vec<GithubContributor>) -> (fits: bool)
    ensures
        fits == forall|i: int|
            0 <= i < contributors@.len() ==> countable(#[trigger] contributors@[i]),
{
    let mut at: usize = 0;
    while at < contributors.len()
        invariant
            at <= contributors@.len(),
            forall|i: int| 0 <= i < at ==> countable(#[trigger] contributors@[i]),
        decreases contributors@.len() - at,
    {
        if !contributors[at].is_countable() {
            return false;
        }
        at = at + 1;
    }
    true
}

/// Where an item with `total` lines goes in a ranked list so that it comes
/// before every item that has no more lines than it.
fn rank_of(ranking: &Vec<Contribution>, total: u64) -> (at: usize)
    ensures
        at <= ranking@.len(),
        forall|i: int| 0 <= i < at ==> lines(#[trigger] ranking@[i]) > total,
        at < ranking@.len() ==> lines(ranking@[at as int]) <= total,
{
    let mut at: usize = 0;
    while at < ranking.len() && ranking[at].lines_changed() > total
        invariant
            at <= ranking@.len(),
            forall|i: int| 0 <= i < at ==> lines(#[trigger] ranking@[i]) > total,
        decreases ranking@.len() - at,
    {
        at = at + 1;
    }
    at
}

/// Sums every contributor up and ranks the summaries by lines changed, the
/// most first; contributors with equal lines keep their order.
pub fn get_contributions(github_contributors: Vec<GithubContributor>) -> (contributions: Vec<
    Contribution,
>)
    requires
        forall|i: int|
            0 <= i < github_contributors@.len() ==> countable(#[trigger] github_contributors@[i]),
    ensures
        ranked(summaries(github_contributors@), contributions@),
{
    let ghost input = summaries(github_contributors@);
    let ghost mut origin: Seq<int> = Seq::empty();
    let mut waiting = github_contributors;
    let mut contributions: Vec<Contribution> = Vec::new();
    while waiting.len() > 0
        invariant
            waiting@.len() <= input.len(),
            forall|i: int|
                0 <= i < waiting@.len() ==> countable(#[trigger] waiting@[i]) && summary(
                    waiting@[i],
                ) == input[i],
            placed(input, contributions@, origin, waiting@.len() as int),
        decreases waiting@.len(),
    {
        let ghost last = waiting@.len() - 1;
        let ghost before = contributions@;
        let ghost origin_before = origin;
        let contributor = waiting.pop().unwrap();
        let contribution = summarize(contributor);
        let at = rank_of(&contributions, contribution.lines_changed());
        contributions.insert(at, contribution);
        proof {
            origin = origin_before.insert(at as int, last);
            lemma_place(input, before, origin_before, last + 1, at as int, contribution);
        }
    }
    contributions
}

/// Putting the item before `from` at its rank keeps a ranking a ranking.
proof fn lemma_place(
    input: Seq<Contribution>,
    output: Seq<Contribution>,
    origin: Seq<int>,
    from: int,
    at: int,
    item: Contribution,
)
    requires
        0 < from <= input.len(),
        placed(input, output, origin, from),
        item == input[from - 1],
        0 <= at <= output.len(),
        forall|i: int| 0 <= i < at ==> lines(#[trigger] output[i]) > lines(item),
        at < output.len() ==> lines(output[at]) <= lines(item),
    ensures
        placed(input, output.insert(at, item), origin.insert(at, from - 1), from - 1),
{
    let output_after = output.insert(at, item);
    let origin_after = origin.insert(at, from - 1);
    assert forall|i: int| 0 <= i < output_after.len() implies (if i < at {
        output_after[i] == output[i] && origin_after[i] == origin[i]
    } else if i == at {
        output_after[i] == item && origin_after[i] == from - 1
    } else {
        output_after[i] == output[i - 1] && origin_after[i] == origin[i - 1]
    }) by {}
    assert forall|i: int| at <= i < output.len() implies lines(#[trigger] output[i]) <= lines(
        item,
    ) by {
        if at < i {
            assert(lines(output[at]) >= lines(output[i]));
        }
    }
    assert forall|i: int| 0 <= i < origin_after.len() implies from - 1
        <= #[trigger] origin_after[i] < input.len() && output_after[i]
        == input[origin_after[i]] by {
        if i < at {
            assert(origin[i] >= from);
        } else if i > at {
            assert(origin[i - 1] >= from);
        }
    }
    assert forall|i: int, j: int| 0 <= i < j < origin_after.len() implies #[trigger] origin_after[i]
        != #[trigger] origin_after[j] by {
        let oi = if i < at { i } else { i - 1 };
        let oj = if j < at { j } else { j - 1 };
        if i != at && j != at {
            assert(origin[oi] != origin[oj]);
        } else if i == at {
            assert(origin[oj] >= from);
        } else {
            assert(origin[oi] >= from);
        }
    }
    assert forall|i: int, j: int| 0 <= i < j < output_after.len() implies lines(
        #[trigger] output_after[i],
    ) >= lines(#[trigger] output_after[j]) by {
        let oi = if i < at { i } else { i - 1 };
        let oj = if j < at { j } else { j - 1 };
        if i != at && j != at {
            assert(lines(output[oi]) >= lines(output[oj]));
        } else if i == at {
            assert(lines(output[oj]) <= lines(item));
        } else {
            assert(lines(output[oi]) > lines(item));
        }
    }
    assert forall|i: int, j: int|
        0 <= i < j < origin_after.len() && lines(output_after[i]) == lines(
            output_after[j],
        ) implies #[trigger] origin_after[i] < #[trigger] origin_after[j] by {
        let oi = if i < at { i } else { i - 1 };
        let oj = if j < at { j } else { j - 1 };
        if i != at && j != at {
            assert(origin[oi] < origin[oj]);
        } else if i == at {
            assert(origin[oj] >= from);
        } else {
            assert(lines(output[oi]) > lines(item));
        }
    }
}

/// A list of `size` different numbers below `size` holds every number below
/// `size`.
proof fn lemma_origin_holds_all(origin: Seq<int>, wanted: int)
    requires
        forall|i: int| 0 <= i < origin.len() ==> 0 <= #[trigger] origin[i] < origin.len(),
        forall|i: int, j: int|
            0 <= i < j < origin.len() ==> #[trigger] origin[i] != #[trigger] origin[j],
        0 <= wanted < origin.len(),
    ensures
        exists|at: int| 0 <= at < origin.len() && origin[at] == wanted,
{
    let size = origin.len() as int;
    assert(origin.no_duplicates()) by {
        assert forall|i: int, j: int|
            0 <= i < origin.len() && 0 <= j < origin.len() && i != j implies origin[i]
            != origin[j] by {
            if i < j {
                assert(origin[i] != origin[j]);
            } else {
                assert(origin[j] != origin[i]);
            }
        }
    }
    origin.unique_seq_to_set();
    lemma_int_range(0, size);
    assert(origin.to_set().subset_of(set_int_range(0, size))) by {
        assert forall|value: int| origin.to_set().contains(value) implies set_int_range(
            0,
            size,
        ).contains(value) by {
            let at = choose|at: int| 0 <= at < origin.len() && origin[at] == value;
            assert(0 <= origin[at] < origin.len());
        }
    }
    vstd::set_lib::lemma_len_subset(origin.to_set(), set_int_range(0, size));
    lemma_subset_equality(origin.to_set(), set_int_range(0, size));
    assert(set_int_range(0, size).contains(wanted));
    assert(origin.to_set().contains(wanted));
    assert(origin.contains(wanted));
}

/// Two rankings of one input take their first `upto` items from the same
/// places.
proof fn lemma_origins_agree(
    input: Seq<Contribution>,
    first: Seq<Contribution>,
    second: Seq<Contribution>,
    origin_first: Seq<int>,
    origin_second: Seq<int>,
    upto: int,
)
    requires
        placed(input, first, origin_first, 0),
        placed(input, second, origin_second, 0),
        0 <= upto <= input.len(),
    ensures
        forall|i: int| 0 <= i < upto ==> origin_first[i] == origin_second[i],
    decreases upto,
{
    if upto > 0 {
        lemma_origins_agree(input, first, second, origin_first, origin_second, upto - 1);
        let here = upto - 1;
        let one = origin_first[here];
        let other = origin_second[here];
        if one != other {
            lemma_origin_holds_all(origin_second, one);
            lemma_origin_holds_all(origin_first, other);
            let later_second = choose|at: int|
                0 <= at < origin_second.len() && origin_second[at] == one;
            let later_first = choose|at: int|
                0 <= at < origin_first.len() && origin_first[at] == other;
            if later_second < here {
                assert(origin_first[later_second] == origin_second[later_second]);
                assert(origin_first[later_second] != origin_first[here]);
            }
            if later_first < here {
                assert(origin_first[later_first] == origin_second[later_first]);
                assert(origin_second[later_first] != origin_second[here]);
            }
            assert(here < later_second && here < later_first);
            assert(second[here] == input[other] && second[later_second] == input[one]);
            assert(first[here] == input[one] && first[later_first] == input[other]);
            assert(lines(second[here]) >= lines(second[later_second]));
            assert(lines(first[here]) >= lines(first[later_first]));
            assert(origin_second[here] < origin_second[later_second]);
            assert(origin_first[here] < origin_first[later_first]);
        }
    }
}

/// Ranking leaves no choice: two rankings of one input are equal.
pub proof fn lemma_ranking_is_unique(
    input: Seq<Contribution>,
    first: Seq<Contribution>,
    second: Seq<Contribution>,
)
    requires
        ranked(input, first),
        ranked(input, second),
    ensures
        first == second,
{
    let origin_first = choose|origin: Seq<int>| placed(input, first, origin, 0);
    let origin_second = choose|origin: Seq<int>| placed(input, second, origin, 0);
    lemma_origins_agree(input, first, second, origin_first, origin_second, input.len() as int);
    assert forall|i: int| 0 <= i < first.len() implies first[i] == second[i] by {
        assert(origin_first[i] == origin_second[i]);
        assert(first[i] == input[origin_first[i]]);
        assert(second[i] == input[origin_second[i]]);
    }
    assert(first =~= second);
}

/// A ranking holds every item of the input, and nothing else.
pub proof fn lemma_ranking_holds_all(
    input: Seq<Contribution>,
    output: Seq<Contribution>,
    item: int,
)
    requires
        ranked(input, output),
        0 <= item < input.len(),
    ensures
        output.len() == input.len(),
        exists|at: int| 0 <= at < output.len() && output[at] == input[item],
        forall|at: int|
            0 <= at < output.len() ==> exists|from: int|
                0 <= from < input.len() && #[trigger] output[at] == input[from],
{
    let origin = choose|origin: Seq<int>| placed(input, output, origin, 0);
    lemma_origin_holds_all(origin, item);
    let at = choose|at: int| 0 <= at < origin.len() && origin[at] == item;
    assert(output[at] == input[origin[at]]);
    assert forall|at: int| 0 <= at < output.len() implies exists|from: int|
        0 <= from < input.len() && #[trigger] output[at] == input[from] by {
        assert(0 <= origin[at] < input.len() && output[at] == input[origin[at]]);
    }
}

} // verus!
