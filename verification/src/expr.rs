//! Guard expressions: matchers joined by `&&`, `||` and `!`.

use crate::error::{Error, ErrorView};
use crate::glob::{exists_match, exists_outcome};
use crate::lang::{lang_match, lang_outcome};
use crate::project::{Project, ProjectView};
use vstd::prelude::*;

verus! {

/// A primitive condition on a project.
#[derive(Debug, PartialEq, Eq)]
pub enum Matcher {
    /// Some file of the project matches the glob pattern.
    Exists(String),
    /// The environment variable is set to a non-empty value.
    EnvExists(String),
    /// The environment variable is set to exactly this value.
    EnvEquals { name: String, value: String },
    /// Some file of the project has an extension of the named language.
    Lang(String),
}

/// A `Matcher` with its texts as sequences of characters.
pub enum MatcherView {
    Exists(Seq<char>),
    EnvExists(Seq<char>),
    EnvEquals { name: Seq<char>, value: Seq<char> },
    Lang(Seq<char>),
}

impl View for Matcher {
    type V = MatcherView;

    open spec fn view(&self) -> MatcherView {
        match self {
            Matcher::Exists(p) => MatcherView::Exists(p@),
            Matcher::EnvExists(n) => MatcherView::EnvExists(n@),
            Matcher::EnvEquals { name, value } => MatcherView::EnvEquals {
                name: name@,
                value: value@,
            },
            Matcher::Lang(n) => MatcherView::Lang(n@),
        }
    }
}

impl MatcherView {
    /// What the matcher comes to on the project `p`.
    pub open spec fn outcome(self, p: ProjectView) -> Result<bool, ErrorView> {
        match self {
            MatcherView::Exists(pattern) => exists_outcome(pattern, p.files),
            MatcherView::EnvExists(name) => Ok(
                match p.var(name) {
                    Some(v) => v.len() > 0,
                    None => false,
                },
            ),
            MatcherView::EnvEquals { name, value } => Ok(p.var(name) == Some(value)),
            MatcherView::Lang(name) => lang_outcome(name, p.files),
        }
    }
}

impl Matcher {
    /// What the matcher comes to on `project`.
    pub fn is_match(&self, project: &Project) -> (r: Result<bool, Error>)
        ensures
            match r {
                Ok(b) => self@.outcome(project@) == Ok::<bool, ErrorView>(b),
                Err(e) => self@.outcome(project@) == Err::<bool, ErrorView>(e@),
            },
    {
        match self {
            Matcher::Exists(pattern) => exists_match(project, pattern.as_str()),
            Matcher::EnvExists(name) => Ok(
                match project.var(name) {
                    Some(v) => !v.as_str().is_empty(),
                    None => false,
                },
            ),
            Matcher::EnvEquals { name, value } => Ok(
                match project.var(name) {
                    Some(v) => *v == *value,
                    None => false,
                },
            ),
            Matcher::Lang(name) => lang_match(project, name.as_str()),
        }
    }
}

impl MatcherView {
    /// Whether the matcher asks for the files of the project.
    pub open spec fn reads_files(self) -> bool {
        self is Exists || self is Lang
    }
}

impl Matcher {
    /// Whether the matcher asks for the files of the project.
    pub fn reads_files(&self) -> (b: bool)
        ensures
            b == self@.reads_files(),
    {
        match self {
            Matcher::Exists(_) => true,
            Matcher::Lang(_) => true,
            Matcher::EnvExists(_) => false,
            Matcher::EnvEquals { .. } => false,
        }
    }
}

impl Clone for Matcher {
    fn clone(&self) -> (r: Self)
        ensures
            r@ == self@,
    {
        match self {
            Matcher::Exists(p) => Matcher::Exists(p.clone()),
            Matcher::EnvExists(n) => Matcher::EnvExists(n.clone()),
            Matcher::EnvEquals { name, value } => Matcher::EnvEquals {
                name: name.clone(),
                value: value.clone(),
            },
            Matcher::Lang(n) => Matcher::Lang(n.clone()),
        }
    }
}

/// A boolean expression over matchers.
#[derive(Debug, PartialEq, Eq)]
pub enum Expr {
    Matcher(Matcher),
    And(Box<Expr>, Box<Expr>),
    Or(Box<Expr>, Box<Expr>),
    Not(Box<Expr>),
}

/// An `Expr` over `MatcherView`s.
pub enum ExprView {
    Matcher(MatcherView),
    And(Box<ExprView>, Box<ExprView>),
    Or(Box<ExprView>, Box<ExprView>),
    Not(Box<ExprView>),
}

impl Expr {
    /// The expression as a mathematical value.
    pub open spec fn model(self) -> ExprView
        decreases self,
    {
        match self {
            Expr::Matcher(m) => ExprView::Matcher(m@),
            Expr::And(a, b) => ExprView::And(Box::new(a.model()), Box::new(b.model())),
            Expr::Or(a, b) => ExprView::Or(Box::new(a.model()), Box::new(b.model())),
            Expr::Not(e) => ExprView::Not(Box::new(e.model())),
        }
    }

    fn duplicate(&self) -> (r: Expr)
        ensures
            r@ == self@,
        decreases self,
    {
        match self {
            Expr::Matcher(m) => Expr::Matcher(m.clone()),
            Expr::And(a, b) => Expr::And(Box::new(a.duplicate()), Box::new(b.duplicate())),
            Expr::Or(a, b) => Expr::Or(Box::new(a.duplicate()), Box::new(b.duplicate())),
            Expr::Not(e) => Expr::Not(Box::new(e.duplicate())),
        }
    }
}

impl ExprView {
    /// What the expression comes to on the project `p`. Operands are
    /// evaluated from the left, and the right operand of `&&` and `||` only
    /// where the left one does not decide; the first error ends it.
    pub open spec fn eval(self, p: ProjectView) -> Result<bool, ErrorView>
        decreases self,
    {
        match self {
            ExprView::Matcher(m) => m.outcome(p),
            ExprView::And(a, b) => match a.eval(p) {
                Ok(true) => b.eval(p),
                Ok(false) => Ok(false),
                Err(e) => Err(e),
            },
            ExprView::Or(a, b) => match a.eval(p) {
                Ok(true) => Ok(true),
                Ok(false) => b.eval(p),
                Err(e) => Err(e),
            },
            ExprView::Not(a) => match a.eval(p) {
                Ok(v) => Ok(!v),
                Err(e) => Err(e),
            },
        }
    }

    /// Whether some matcher of the expression asks for the files of the
    /// project.
    pub open spec fn reads_files(self) -> bool
        decreases self,
    {
        match self {
            ExprView::Matcher(m) => m.reads_files(),
            ExprView::And(a, b) => a.reads_files() || b.reads_files(),
            ExprView::Or(a, b) => a.reads_files() || b.reads_files(),
            ExprView::Not(a) => a.reads_files(),
        }
    }

    /// Whether each matcher of the expression can be evaluated on `p`.
    pub open spec fn matchers_ok(self, p: ProjectView) -> bool
        decreases self,
    {
        match self {
            ExprView::Matcher(m) => m.outcome(p) is Ok,
            ExprView::And(a, b) => a.matchers_ok(p) && b.matchers_ok(p),
            ExprView::Or(a, b) => a.matchers_ok(p) && b.matchers_ok(p),
            ExprView::Not(a) => a.matchers_ok(p),
        }
    }

    /// The truth value of the expression where `holds` says of each matcher
    /// whether it holds.
    pub open spec fn truth(self, holds: spec_fn(MatcherView) -> bool) -> bool
        decreases self,
    {
        match self {
            ExprView::Matcher(m) => holds(m),
            ExprView::And(a, b) => a.truth(holds) && b.truth(holds),
            ExprView::Or(a, b) => a.truth(holds) || b.truth(holds),
            ExprView::Not(a) => !a.truth(holds),
        }
    }
}

/// `holds` gives each matcher that can be evaluated on `p` its outcome.
pub open spec fn agrees_with_project(holds: spec_fn(MatcherView) -> bool, p: ProjectView) -> bool {
    forall|m: MatcherView| #[trigger] m.outcome(p) is Ok ==> holds(m) == m.outcome(p)->Ok_0
}

/// An expression all of whose matchers can be evaluated can be evaluated,
/// and an expression that can has the truth value that the outcomes of its
/// matchers give it under the rules of boolean algebra, whatever is taken
/// for the matchers that cannot be evaluated.
pub proof fn lemma_eval_is_truth(e: ExprView, p: ProjectView, holds: spec_fn(MatcherView) -> bool)
    requires
        agrees_with_project(holds, p),
    ensures
        e.matchers_ok(p) ==> e.eval(p) is Ok,
        e.eval(p) is Ok ==> e.eval(p) == Ok::<bool, ErrorView>(e.truth(holds)),
    decreases e,
{
    match e {
        ExprView::Matcher(m) => {},
        ExprView::And(a, b) => {
            lemma_eval_is_truth(*a, p, holds);
            lemma_eval_is_truth(*b, p, holds);
        },
        ExprView::Or(a, b) => {
            lemma_eval_is_truth(*a, p, holds);
            lemma_eval_is_truth(*b, p, holds);
        },
        ExprView::Not(a) => {
            lemma_eval_is_truth(*a, p, holds);
        },
    }
}

/// Where the left operand decides, the right one is not evaluated: a false
/// left operand makes `&&` false and a true one makes `||` true, also where
/// the right operand would fail.
pub proof fn lemma_short_circuit(a: ExprView, b: ExprView, p: ProjectView)
    ensures
        a.eval(p) == Ok::<bool, ErrorView>(false) ==> ExprView::And(
            Box::new(a),
            Box::new(b),
        ).eval(p) == Ok::<bool, ErrorView>(false),
        a.eval(p) == Ok::<bool, ErrorView>(true) ==> ExprView::Or(
            Box::new(a),
            Box::new(b),
        ).eval(p) == Ok::<bool, ErrorView>(true),
        a.eval(p) is Err ==> ExprView::And(Box::new(a), Box::new(b)).eval(p) == a.eval(p)
            && ExprView::Or(Box::new(a), Box::new(b)).eval(p) == a.eval(p),
{
}

/// `&&` and `||` are associative, errors included: regrouping changes
/// neither the value nor the error.
pub proof fn lemma_associative(a: ExprView, b: ExprView, c: ExprView, p: ProjectView)
    ensures
        ExprView::And(Box::new(ExprView::And(Box::new(a), Box::new(b))), Box::new(c)).eval(p)
            == ExprView::And(Box::new(a), Box::new(ExprView::And(Box::new(b), Box::new(c)))).eval(
            p,
        ),
        ExprView::Or(Box::new(ExprView::Or(Box::new(a), Box::new(b))), Box::new(c)).eval(p)
            == ExprView::Or(Box::new(a), Box::new(ExprView::Or(Box::new(b), Box::new(c)))).eval(
            p,
        ),
{
    reveal_with_fuel(ExprView::eval, 3);
}

/// `!` undoes itself and turns `&&` into `||` of the negated operands and
/// back, errors included.
pub proof fn lemma_negation(a: ExprView, b: ExprView, p: ProjectView)
    ensures
        ExprView::Not(Box::new(ExprView::Not(Box::new(a)))).eval(p) == a.eval(p),
        ExprView::Not(Box::new(ExprView::And(Box::new(a), Box::new(b)))).eval(p) == ExprView::Or(
            Box::new(ExprView::Not(Box::new(a))),
            Box::new(ExprView::Not(Box::new(b))),
        ).eval(p),
        ExprView::Not(Box::new(ExprView::Or(Box::new(a), Box::new(b)))).eval(p) == ExprView::And(
            Box::new(ExprView::Not(Box::new(a))),
            Box::new(ExprView::Not(Box::new(b))),
        ).eval(p),
{
    reveal_with_fuel(ExprView::eval, 3);
}

/// An expression that asks for no files comes to the same on two projects
/// with one environment.
pub proof fn lemma_eval_without_files(e: ExprView, p: ProjectView, q: ProjectView)
    requires
        !e.reads_files(),
        p.env == q.env,
    ensures
        e.eval(p) == e.eval(q),
    decreases e,
{
    match e {
        ExprView::Matcher(m) => {},
        ExprView::And(a, b) => {
            lemma_eval_without_files(*a, p, q);
            lemma_eval_without_files(*b, p, q);
        },
        ExprView::Or(a, b) => {
            lemma_eval_without_files(*a, p, q);
            lemma_eval_without_files(*b, p, q);
        },
        ExprView::Not(a) => {
            lemma_eval_without_files(*a, p, q);
        },
    }
}

impl Expr {
    /// Whether some matcher of the expression asks for the files of the
    /// project.
    pub fn reads_files(&self) -> (b: bool)
        ensures
            b == self@.reads_files(),
        decreases self,
    {
        match self {
            Expr::Matcher(m) => m.reads_files(),
            Expr::And(a, b) => a.reads_files() || b.reads_files(),
            Expr::Or(a, b) => a.reads_files() || b.reads_files(),
            Expr::Not(e) => e.reads_files(),
        }
    }

    /// What the expression comes to on `project`.
    pub fn is_match(&self, project: &Project) -> (r: Result<bool, Error>)
        ensures
            match r {
                Ok(b) => self@.eval(project@) == Ok::<bool, ErrorView>(b),
                Err(e) => self@.eval(project@) == Err::<bool, ErrorView>(e@),
            },
        decreases self,
    {
        match self {
            Expr::Matcher(m) => m.is_match(project),
            Expr::And(a, b) => match a.is_match(project) {
                Ok(true) => b.is_match(project),
                Ok(false) => Ok(false),
                Err(e) => Err(e),
            },
            Expr::Or(a, b) => match a.is_match(project) {
                Ok(true) => Ok(true),
                Ok(false) => b.is_match(project),
                Err(e) => Err(e),
            },
            Expr::Not(e) => match e.is_match(project) {
                Ok(v) => Ok(!v),
                Err(e) => Err(e),
            },
        }
    }
}

impl View for Expr {
    type V = ExprView;

    open spec fn view(&self) -> ExprView {
        self.model()
    }
}

impl Clone for Expr {
    fn clone(&self) -> (r: Self)
        ensures
            r@ == self@,
    {
        self.duplicate()
    }
}

} // verus!
