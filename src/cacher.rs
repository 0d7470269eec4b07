use std::collections::HashMap;
use vstd::prelude::*;
use vstd::std_specs::hash::obeys_key_model;

verus! {

broadcast use vstd::std_specs::hash::group_hash_axioms;

/// Memoizes a single-argument function: asked for the result on an argument,
/// it runs the function once for that argument, stores the result, and hands
/// the stored result back on every later request for the same argument.
pub struct Cacher<Func, FuncArg, FuncRet> {
    func: Func,
    results: HashMap<FuncArg, FuncRet>,
    /// The arguments the function has been run on, in the order of the runs.
    calls: Ghost<Seq<FuncArg>>,
}

impl<Func, FuncArg, FuncRet> View for Cacher<Func, FuncArg, FuncRet> {
    type V = Map<FuncArg, FuncRet>;

    /// The stored results, keyed by argument.
    closed spec fn view(&self) -> Map<FuncArg, FuncRet> {
        self.results@
    }
}

impl<Func, FuncArg, FuncRet> Cacher<Func, FuncArg, FuncRet> where
    Func: Fn(&FuncArg) -> FuncRet,
    FuncArg: Eq + std::hash::Hash,
    FuncRet: Copy + Clone,
{
    /// The function that computes each result; fixed at construction.
    pub closed spec fn function(&self) -> Func {
        self.func
    }

    /// The arguments the function has been run on so far, in order.
    pub closed spec fn calls(&self) -> Seq<FuncArg> {
        self.calls@
    }

    /// `f` may be run on every argument and gives one result for each.
    pub open spec fn is_pure(f: Func) -> bool {
        &&& forall|a: FuncArg| #[trigger] f.requires((&a,))
        &&& forall|a: FuncArg, r1: FuncRet, r2: FuncRet|
            #[trigger] f.ensures((&a,), r1) && #[trigger] f.ensures((&a,), r2) ==> r1 == r2
    }

    /// Well-formedness: the argument type behaves as a hash key, the function
    /// was run at most once per argument, exactly on the stored arguments, and
    /// every stored result is a result of the function on its argument.
    pub open spec fn wf(&self) -> bool {
        &&& obeys_key_model::<FuncArg>()
        &&& self.calls().no_duplicates()
        &&& self.calls().to_set() == self@.dom()
        &&& self.calls().len() == self@.len()
        &&& forall|k: FuncArg| #[trigger]
            self@.contains_key(k) ==> self.function().ensures((&k,), self@[k])
    }

    /// What a call of `value(v)` returning `r` does, taking `self` to `next`:
    /// a stored argument gives back its stored result and changes nothing; a
    /// new one runs the function once and stores what it returned.
    pub open spec fn value_spec(self, v: FuncArg, next: Self, r: FuncRet) -> bool {
        &&& next.wf()
        &&& next.function() == self.function()
        &&& next@.contains_key(v)
        &&& next@[v] == r
        &&& self.function().ensures((&v,), r)
        &&& if self@.contains_key(v) {
            &&& r == self@[v]
            &&& next@ == self@
            &&& next.calls() == self.calls()
        } else {
            &&& next@ == self@.insert(v, r)
            &&& next.calls() == self.calls().push(v)
        }
    }

    /// Constructs a new Cacher with `f` as the function that computes each result.
    /// The argument type must hash and compare consistently, so that it can key the
    /// stored results.
    pub fn new(f: Func) -> (c: Self)
        requires
            obeys_key_model::<FuncArg>(),
        ensures
            c.wf(),
            c.function() == f,
            c@ == Map::<FuncArg, FuncRet>::empty(),
            c.calls() == Seq::<FuncArg>::empty(),
    {
        let c = Cacher { func: f, results: HashMap::new(), calls: Ghost(Seq::empty()) };
        proof {
            assert(c.calls@.to_set() =~= Set::<FuncArg>::empty());
        }
        c
    }

    /// The result of the function on `v`: the stored one if there is one, else
    /// computed now and stored.
    pub fn value(&mut self, v: FuncArg) -> (r: FuncRet)
        requires
            old(self).wf(),
            old(self).function().requires((&v,)),
        ensures
            Self::value_spec(*old(self), v, *final(self), r),
    {
        match self.results.get(&v) {
            Some(result) => *result,
            None => {
                let ghost arg = v;
                let result = (self.func)(&v);
                self.results.insert(v, result);
                proof {
                    self.calls@.lemma_push_to_set_commute(arg);
                    self.calls@ = self.calls@.push(arg);
                    assert(self.calls@.to_set() =~= self.results@.dom());
                }
                result
            }
        }
    }

    /// How many results are stored.
    pub fn len(&self) -> (n: usize)
        requires
            self.wf(),
        ensures
            n == self@.len(),
    {
        self.results.len()
    }

    /// The stored result for `v`, if the function has been run on it.
    pub fn get(&self, v: &FuncArg) -> (r: Option<&FuncRet>)
        requires
            self.wf(),
        ensures
            match r {
                Some(x) => self@.contains_key(*v) && *x == self@[*v],
                None => !self@.contains_key(*v),
            },
    {
        self.results.get(v)
    }

    /// Asking for the same argument any number of times in a row gives the
    /// same result every time, and that result is one the function returns on
    /// the argument; for a pure function it is the only one.
    pub proof fn lemma_repeated_requests_agree(states: Seq<Self>, v: FuncArg, rs: Seq<FuncRet>)
        requires
            states.len() == rs.len() + 1,
            states[0].wf(),
            forall|i: int|
                0 <= i < rs.len() ==> Self::value_spec(
                    #[trigger] states[i],
                    v,
                    states[i + 1],
                    rs[i],
                ),
        ensures
            forall|i: int| 0 <= i < rs.len() ==> #[trigger] rs[i] == rs[0],
            forall|i: int| 0 <= i < rs.len() ==> states[0].function().ensures((&v,), #[trigger] rs[i]),
            Self::is_pure(states[0].function()) && rs.len() > 0 ==> forall|r: FuncRet|
                #[trigger] states[0].function().ensures((&v,), r) ==> r == rs[0],
        decreases rs.len(),
    {
        if rs.len() > 1 {
            let n = rs.len() - 1;
            Self::lemma_repeated_requests_agree(states.take(n + 1), v, rs.take(n));
            assert(states.take(n + 1)[n - 1] == states[n - 1]);
            assert(rs[n] == rs[n - 1]);
            let prev = rs.take(n);
            assert(prev[0] == rs[0] && prev[n - 1] == rs[n - 1]);
            assert forall|i: int| 0 <= i < rs.len() implies #[trigger] rs[i] == rs[0] by {
                if i < n {
                    assert(prev[i] == rs[i]);
                }
            }
        }
        assert forall|i: int| 0 <= i < rs.len() implies states[0].function().ensures((&v,), #[trigger] rs[i]) by {
            assert(rs[i] == rs[0]);
        }
    }

    /// Over a run of requests that starts from an empty cacher, the function
    /// is run exactly once for each distinct argument, whatever the order of
    /// the requests and however often each argument is repeated, and one
    /// result is stored for each distinct argument.
    pub proof fn lemma_each_argument_computed_once(
        states: Seq<Self>,
        args: Seq<FuncArg>,
        rs: Seq<FuncRet>,
    )
        requires
            args.len() == rs.len(),
            states.len() == args.len() + 1,
            states[0].wf(),
            states[0]@ == Map::<FuncArg, FuncRet>::empty(),
            forall|i: int|
                0 <= i < args.len() ==> Self::value_spec(
                    #[trigger] states[i],
                    args[i],
                    states[i + 1],
                    rs[i],
                ),
        ensures
            states.last().calls().no_duplicates(),
            states.last().calls().to_set() == args.to_set(),
            states.last().calls().len() == args.to_set().len(),
            states.last()@.len() == args.to_set().len(),
    {
        Self::lemma_run_prefix(states, args, rs, args.len() as int);
        assert(args.take(args.len() as int) =~= args);
    }

    proof fn lemma_run_prefix(states: Seq<Self>, args: Seq<FuncArg>, rs: Seq<FuncRet>, n: int)
        requires
            args.len() == rs.len(),
            states.len() == args.len() + 1,
            0 <= n <= args.len(),
            states[0].wf(),
            states[0]@ == Map::<FuncArg, FuncRet>::empty(),
            forall|i: int|
                0 <= i < args.len() ==> Self::value_spec(
                    #[trigger] states[i],
                    args[i],
                    states[i + 1],
                    rs[i],
                ),
        ensures
            states[n].wf(),
            states[n]@.dom() == args.take(n).to_set(),
        decreases n,
    {
        if n == 0 {
            assert(args.take(0).to_set() =~= Set::<FuncArg>::empty());
            assert(states[0]@.dom() =~= Set::<FuncArg>::empty());
        } else {
            Self::lemma_run_prefix(states, args, rs, n - 1);
            args.lemma_take_succ_push(n - 1);
            args.take(n - 1).lemma_push_to_set_commute(args[n - 1]);
            assert(Self::value_spec(states[n - 1], args[n - 1], states[n], rs[n - 1]));
            assert(states[n]@.dom() =~= states[n - 1]@.dom().insert(args[n - 1]));
        }
    }

    /// Requests for two different arguments leave two separate entries, each
    /// holding the result returned for its own argument.
    pub proof fn lemma_distinct_arguments_kept_apart(
        c0: Self,
        a: FuncArg,
        c1: Self,
        ra: FuncRet,
        b: FuncArg,
        c2: Self,
        rb: FuncRet,
    )
        requires
            c0.wf(),
            a != b,
            Self::value_spec(c0, a, c1, ra),
            Self::value_spec(c1, b, c2, rb),
        ensures
            c2@.contains_key(a),
            c2@.contains_key(b),
            c2@[a] == ra,
            c2@[b] == rb,
            c2@.dom() == c0@.dom().insert(a).insert(b),
            !c0@.contains_key(a) && !c0@.contains_key(b) ==> c2@.len() == c0@.len() + 2,
    {
        assert(c2@.dom() =~= c0@.dom().insert(a).insert(b));
    }
}

} // verus!