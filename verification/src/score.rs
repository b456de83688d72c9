//! Exact scores: a match percentage kept as a fraction, so that ranking never
//! rounds.

use vstd::prelude::*;

verus! {

/// Points added to a score when every required symptom was reported.
pub const REQUIRED_BONUS: u8 = 10;

/// The mathematical content of a [`Score`]: `matched` symptoms out of `total`,
/// and whether the bonus for required symptoms was earned.
pub struct ScoreModel {
    pub matched: nat,
    pub total: nat,
    pub bonus: bool,
}

impl ScoreModel {
    /// A score is well formed when it counts at least one match and no more
    /// matches than there are symptoms.
    pub open spec fn wf(self) -> bool {
        0 < self.matched <= self.total
    }

    /// The score multiplied by `total`: `100 * matched`, plus `10 * total`
    /// with the bonus. The score itself is `scaled() / total`.
    pub open spec fn scaled(self) -> int {
        100 * self.matched + if self.bonus {
            REQUIRED_BONUS as int * self.total
        } else {
            0
        }
    }

    /// `self` is at least as high as `other`, as fractions.
    pub open spec fn at_least(self, other: ScoreModel) -> bool {
        self.scaled() * other.total >= other.scaled() * self.total
    }

    /// `self` and `other` are the same fraction.
    pub open spec fn ties(self, other: ScoreModel) -> bool {
        self.scaled() * other.total == other.scaled() * self.total
    }

    /// The score of a certain match: exactly 100.
    pub open spec fn certain() -> ScoreModel {
        ScoreModel { matched: 1, total: 1, bonus: false }
    }
}

/// A score between 0 (excluded) and 110: `100 * matched / total`, plus 10 with
/// the bonus.
#[derive(Clone, Copy, Debug, PartialEq, Eq)]
pub struct Score {
    matched: usize,
    total: usize,
    bonus: bool,
}

impl View for Score {
    type V = ScoreModel;

    closed spec fn view(&self) -> ScoreModel {
        ScoreModel { matched: self.matched as nat, total: self.total as nat, bonus: self.bonus }
    }
}

impl Score {
    /// Every score counts at least one match, and no more matches than
    /// symptoms.
    #[verifier::type_invariant]
    pub open spec fn inv(self) -> bool {
        self@.wf()
    }

    /// The score of `matched` symptoms out of `total`; `None` when nothing
    /// matched or the counts contradict each other.
    pub fn new(matched: usize, total: usize, bonus: bool) -> (score: Option<Score>)
        ensures
            score is Some <==> 0 < matched <= total,
            score matches Some(s) ==> s@ == (ScoreModel {
                matched: matched as nat,
                total: total as nat,
                bonus,
            }),
    {
        if 0 < matched && matched <= total {
            Some(Score { matched, total, bonus })
        } else {
            None
        }
    }

    /// The score of a certain match.
    pub fn certain() -> (score: Score)
        ensures
            score@ == ScoreModel::certain(),
    {
        Score { matched: 1, total: 1, bonus: false }
    }

    /// How many symptoms matched.
    pub fn matched(&self) -> (n: usize)
        ensures
            n == self@.matched,
            self@.wf(),
    {
        proof {
            use_type_invariant(self);
        }
        self.matched
    }

    /// How many symptoms there were to match.
    pub fn total(&self) -> (n: usize)
        ensures
            n == self@.total,
            self@.wf(),
    {
        proof {
            use_type_invariant(self);
        }
        self.total
    }

    /// Whether the bonus for required symptoms is part of the score.
    pub fn has_bonus(&self) -> (b: bool)
        ensures
            b == self@.bonus,
    {
        self.bonus
    }
    /// Whether `self` is at least as high as `other`. The fractions are
    /// compared by cross-multiplication in 128 bits, so nothing is rounded.
    pub fn at_least(&self, other: &Score) -> (r: bool)
        ensures
            r == self@.at_least(other@),
    {
        proof {
            use_type_invariant(self);
            use_type_invariant(other);
            lemma_product_fits(self.matched as int, other.total as int);
            lemma_product_fits(other.matched as int, self.total as int);
            lemma_product_fits(self.total as int, other.total as int);
            lemma_cross_terms(self@, other@);
        }
        let mine: u128 = self.matched as u128 * other.total as u128;
        let theirs: u128 = other.matched as u128 * self.total as u128;
        let whole: u128 = self.total as u128 * other.total as u128;
        if self.bonus == other.bonus {
            mine >= theirs
        } else if self.bonus {
            mine >= theirs || theirs - mine <= whole / 10
        } else {
            mine >= theirs && mine - theirs > (whole - 1) / 10
        }
    }
}

/// The product of two machine words fits in 128 bits.
proof fn lemma_product_fits(a: int, b: int)
    by (nonlinear_arith)
    requires
        0 <= a <= usize::MAX,
        0 <= b <= usize::MAX,
    ensures
        0 <= a * b <= u128::MAX,
{
}

/// Both sides of the comparison of two scores, written over the three
/// products of their counts.
proof fn lemma_cross_terms(a: ScoreModel, b: ScoreModel)
    by (nonlinear_arith)
    requires
        a.wf(),
        b.wf(),
    ensures
        a.scaled() * b.total == 100 * (a.matched * b.total) + if a.bonus {
            10 * (a.total * b.total)
        } else {
            0
        },
        b.scaled() * a.total == 100 * (b.matched * a.total) + if b.bonus {
            10 * (a.total * b.total)
        } else {
            0
        },
        a.total * b.total >= 1,
{
}

/// A well-formed score lies above 0 and at most at 110; without the bonus at
/// most at 100.
pub proof fn lemma_score_range(s: ScoreModel)
    requires
        s.wf(),
    ensures
        0 < s.scaled() <= 110 * s.total,
        !s.bonus ==> s.scaled() <= 100 * s.total,
        s.bonus ==> s.scaled() > 10 * s.total,
{
}

/// Of two scores one is at least as high as the other.
pub proof fn lemma_at_least_total(a: ScoreModel, b: ScoreModel)
    ensures
        a.at_least(b) || b.at_least(a),
        a.ties(b) <==> a.at_least(b) && b.at_least(a),
        a.at_least(a),
{
}

/// The order of scores is transitive.
pub proof fn lemma_at_least_transitive(a: ScoreModel, b: ScoreModel, c: ScoreModel)
    requires
        a.wf(),
        b.wf(),
        c.wf(),
        a.at_least(b),
        b.at_least(c),
    ensures
        a.at_least(c),
{
    let (x, y, z) = (a.scaled(), b.scaled(), c.scaled());
    let (p, q, r) = (a.total as int, b.total as int, c.total as int);
    assert(x * r >= z * p) by (nonlinear_arith)
        requires
            x * q >= y * p,
            y * r >= z * q,
            p > 0,
            q > 0,
            r > 0,
    {
        assert((x * q) * r >= (y * p) * r);
        assert((y * r) * p >= (z * q) * p);
        assert((x * r) * q >= (z * p) * q);
    }
}

} // verus!
