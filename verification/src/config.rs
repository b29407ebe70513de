//! Which traces, kinds and columns random search may tamper with.
use vstd::prelude::*;

use crate::mutation::MutationKind;
use crate::target::Target;

verus! {

/// Search settings. Empty `targets`, `kinds` and `include_cols` mean "no
/// restriction"; populated lists are filters. `exclude_cols` always filters.
#[derive(Clone, Debug)]
pub struct ScribbleConfig {
    cases: u32,
    targets: Vec<Target>,
    kinds: Vec<MutationKind>,
    include_cols: Vec<usize>,
    exclude_cols: Vec<usize>,
}

/// Mathematical view of a configuration.
#[verifier::ext_equal]
pub struct ConfigView {
    pub cases: u32,
    pub targets: Seq<Target>,
    pub kinds: Seq<MutationKind>,
    pub include_cols: Seq<usize>,
    pub exclude_cols: Seq<usize>,
}

impl View for ScribbleConfig {
    type V = ConfigView;

    closed spec fn view(&self) -> ConfigView {
        ConfigView {
            cases: self.cases,
            targets: self.targets@,
            kinds: self.kinds@,
            include_cols: self.include_cols@,
            exclude_cols: self.exclude_cols@,
        }
    }
}

/// `cfg` lets random search tamper with trace `t`.
pub open spec fn target_allowed(cfg: ConfigView, t: Target) -> bool {
    cfg.targets.len() == 0 || cfg.targets.contains(t)
}

/// `cfg` lets random search generate mutations of kind `k`.
pub open spec fn kind_allowed(cfg: ConfigView, k: MutationKind) -> bool {
    cfg.kinds.len() == 0 || cfg.kinds.contains(k)
}

/// `cfg` lets random search tamper with column `col`.
pub open spec fn col_allowed(cfg: ConfigView, col: int) -> bool {
    &&& (cfg.include_cols.len() == 0 || cfg.include_cols.contains(col as usize))
    &&& !cfg.exclude_cols.contains(col as usize)
}

/// The default number of cases random search runs.
pub open spec fn default_cases() -> u32 {
    256
}

/// Copies an array into a vector.
fn vec_from_array<T: Copy, const N: usize>(items: [T; N]) -> (v: Vec<T>)
    ensures
        v@ == items@,
{
    let mut v: Vec<T> = Vec::new();
    for i in 0..N
        invariant
            N == items@.len(),
            v@ == items@.take(i as int),
    {
        v.push(items[i]);
        assert(items@.take(i as int + 1) =~= items@.take(i as int).push(items@[i as int]));
    }
    assert(items@.take(N as int) =~= items@);
    v
}

/// Whether `t` occurs in `v`.
fn contains_target(v: &Vec<Target>, t: Target) -> (res: bool)
    ensures
        res == v@.contains(t),
{
    for i in 0..v.len()
        invariant
            forall|k: int| 0 <= k < i ==> v@[k] != t,
    {
        if v[i] == t {
            assert(v@[i as int] == t);
            return true;
        }
    }
    false
}

/// Whether `k` occurs in `v`.
fn contains_kind(v: &Vec<MutationKind>, k: MutationKind) -> (res: bool)
    ensures
        res == v@.contains(k),
{
    for i in 0..v.len()
        invariant
            forall|j: int| 0 <= j < i ==> v@[j] != k,
    {
        if v[i] == k {
            assert(v@[i as int] == k);
            return true;
        }
    }
    false
}

/// Whether `x` occurs in `v`.
fn contains_index(v: &Vec<usize>, x: usize) -> (res: bool)
    ensures
        res == v@.contains(x),
{
    for i in 0..v.len()
        invariant
            forall|j: int| 0 <= j < i ==> v@[j] != x,
    {
        if v[i] == x {
            assert(v@[i as int] == x);
            return true;
        }
    }
    false
}

impl Default for ScribbleConfig {
    /// 256 cases, no restriction.
    fn default() -> (res: Self)
        ensures
            res@ == (ConfigView {
                cases: default_cases(),
                targets: Seq::empty(),
                kinds: Seq::empty(),
                include_cols: Seq::empty(),
                exclude_cols: Seq::empty(),
            }),
    {
        let res = Self {
            cases: 256,
            targets: Vec::new(),
            kinds: Vec::new(),
            include_cols: Vec::new(),
            exclude_cols: Vec::new(),
        };
        assert(res@ =~= ConfigView {
            cases: default_cases(),
            targets: Seq::empty(),
            kinds: Seq::empty(),
            include_cols: Seq::empty(),
            exclude_cols: Seq::empty(),
        });
        res
    }
}

impl ScribbleConfig {
    /// Sets the number of cases.
    pub fn cases(self, cases: u32) -> (res: Self)
        ensures
            res@ == (ConfigView { cases, ..self@ }),
    {
        let mut res = self;
        res.cases = cases;
        res
    }

    /// Restricts random search to the one trace `target`.
    pub fn target(self, target: Target) -> (res: Self)
        ensures
            res@ == (ConfigView { targets: seq![target], ..self@ }),
    {
        let mut res = self;
        res.targets = vec![target];
        assert(res.targets@ =~= seq![target]);
        res
    }

    /// Restricts random search to the traces listed (none: no restriction).
    pub fn targets<const N: usize>(self, targets: [Target; N]) -> (res: Self)
        ensures
            res@ == (ConfigView { targets: targets@, ..self@ }),
    {
        let mut res = self;
        res.targets = vec_from_array(targets);
        res
    }

    /// Restricts random search to the kinds listed (none: no restriction).
    pub fn mutations<const N: usize>(self, kinds: [MutationKind; N]) -> (res: Self)
        ensures
            res@ == (ConfigView { kinds: kinds@, ..self@ }),
    {
        let mut res = self;
        res.kinds = vec_from_array(kinds);
        res
    }

    /// Restricts random search to the columns listed (none: no restriction).
    pub fn include_cols<const N: usize>(self, cols: [usize; N]) -> (res: Self)
        ensures
            res@ == (ConfigView { include_cols: cols@, ..self@ }),
    {
        let mut res = self;
        res.include_cols = vec_from_array(cols);
        res
    }

    /// Keeps random search off the columns listed.
    pub fn exclude_cols<const N: usize>(self, cols: [usize; N]) -> (res: Self)
        ensures
            res@ == (ConfigView { exclude_cols: cols@, ..self@ }),
    {
        let mut res = self;
        res.exclude_cols = vec_from_array(cols);
        res
    }

    /// The number of cases random search runs.
    pub fn case_count(&self) -> (n: u32)
        ensures
            n == self@.cases,
    {
        self.cases
    }

    /// Whether random search may tamper with trace `target`.
    pub fn is_target_allowed(&self, target: Target) -> (res: bool)
        ensures
            res == target_allowed(self@, target),
    {
        self.targets.len() == 0 || contains_target(&self.targets, target)
    }

    /// Whether random search may generate mutations of kind `kind`.
    pub fn is_kind_allowed(&self, kind: MutationKind) -> (res: bool)
        ensures
            res == kind_allowed(self@, kind),
    {
        self.kinds.len() == 0 || contains_kind(&self.kinds, kind)
    }

    /// Whether random search may tamper with column `col`: it is listed in
    /// `include_cols` (or that list is empty) and not in `exclude_cols`.
    pub fn is_col_allowed(&self, col: usize) -> (res: bool)
        ensures
            res == col_allowed(self@, col as int),
    {
        if self.include_cols.len() != 0 && !contains_index(&self.include_cols, col) {
            return false;
        }
        !contains_index(&self.exclude_cols, col)
    }
}

/// With no lists, nothing is filtered: every trace, kind and column is allowed.
pub proof fn lemma_no_lists_no_restriction(cfg: ConfigView, t: Target, k: MutationKind, col: int)
    requires
        cfg.targets.len() == 0,
        cfg.kinds.len() == 0,
        cfg.include_cols.len() == 0,
        cfg.exclude_cols.len() == 0,
    ensures
        target_allowed(cfg, t),
        kind_allowed(cfg, k),
        col_allowed(cfg, col),
{
}

/// After `target(t)`, exactly the trace `t` is allowed.
pub proof fn lemma_single_target(cfg: ConfigView, t: Target, u: Target)
    ensures
        target_allowed(ConfigView { targets: seq![t], ..cfg }, u) <==> u == t,
{
    if u == t {
        assert(seq![t][0] == u);
    }
}

/// A non-empty list of kinds allows exactly the kinds it lists.
pub proof fn lemma_kind_list(cfg: ConfigView, k: MutationKind)
    requires
        cfg.kinds.len() > 0,
    ensures
        kind_allowed(cfg, k) <==> cfg.kinds.contains(k),
{
}

/// An excluded column is never allowed, whatever `include_cols` says.
pub proof fn lemma_exclusion_wins(cfg: ConfigView, col: usize)
    requires
        cfg.exclude_cols.contains(col),
    ensures
        !col_allowed(cfg, col as int),
{
}

/// A non-empty list of targets allows exactly the traces it lists, at
/// whatever position, and no others.
pub proof fn lemma_target_list(cfg: ConfigView, t: Target)
    requires
        cfg.targets.len() > 0,
    ensures
        target_allowed(cfg, t) <==> exists|i: int| 0 <= i < cfg.targets.len() && cfg.targets[i] == t,
        forall|i: int| 0 <= i < cfg.targets.len() ==> target_allowed(cfg, #[trigger] cfg.targets[i]),
{
    assert forall|i: int| 0 <= i < cfg.targets.len() implies target_allowed(cfg, #[trigger] cfg.targets[i]) by {
        assert(cfg.targets.contains(cfg.targets[i]));
    }
}

/// With a non-empty list of columns to include, a column the exclusion
/// list does not name is allowed exactly when the inclusion list names it,
/// at whatever position.
pub proof fn lemma_include_list(cfg: ConfigView, col: usize)
    requires
        cfg.include_cols.len() > 0,
        forall|j: int| 0 <= j < cfg.exclude_cols.len() ==> cfg.exclude_cols[j] != col,
    ensures
        col_allowed(cfg, col as int) <==> exists|i: int| 0 <= i < cfg.include_cols.len() && cfg.include_cols[i] == col,
{
    assert(!cfg.exclude_cols.contains(col));
}

/// With no list of columns to include, every column the exclusion list
/// does not name is allowed.
pub proof fn lemma_no_include_list(cfg: ConfigView, col: usize)
    requires
        cfg.include_cols.len() == 0,
    ensures
        col_allowed(cfg, col as int) <==> forall|j: int| 0 <= j < cfg.exclude_cols.len() ==> cfg.exclude_cols[j] != col,
{
    if !col_allowed(cfg, col as int) {
        let j = choose|j: int| 0 <= j < cfg.exclude_cols.len() && cfg.exclude_cols[j] == col;
    }
}

} // verus!
