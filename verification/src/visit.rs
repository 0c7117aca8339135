//! The argument visitor: every value reference a template depends on, in
//! deterministic order — for each directive its own argument first, then an
//! indirect width, then an indirect precision.

use vstd::prelude::*;

use crate::model::Argument;
use crate::model::ArgumentV;
use crate::model::Count;
use crate::model::CountV;
use crate::model::FormatString;
use crate::model::FormatStringItem;
use crate::model::FormatV;
use crate::model::ItemV;
use crate::model::Precision;
use crate::model::PrecisionV;

verus! {

/// The argument of an indirect width, if any.
pub open spec fn count_arg(w: Option<CountV>) -> Seq<ArgumentV> {
    match w {
        Some(CountV::Argument(a)) => seq![a],
        _ => Seq::empty(),
    }
}

/// The argument of an indirect precision, if any.
pub open spec fn precision_arg(p: Option<PrecisionV>) -> Seq<ArgumentV> {
    match p {
        Some(PrecisionV::Count(CountV::Argument(a))) => seq![a],
        _ => Seq::empty(),
    }
}

/// The references of one directive: its own argument, then an indirect
/// width, then an indirect precision.
pub open spec fn format_args(f: FormatV) -> Seq<ArgumentV> {
    seq![f.arg] + (match f.format_spec {
        Some(sp) => count_arg(sp.width) + precision_arg(sp.precision),
        None => Seq::empty(),
    })
}

/// The references of one item; literal runs and escapes contribute nothing.
pub open spec fn item_args(it: ItemV) -> Seq<ArgumentV> {
    match it {
        ItemV::Format(f) => format_args(f),
        _ => Seq::empty(),
    }
}

/// The references of a whole template, in visiting order.
pub open spec fn items_args(items: Seq<ItemV>) -> Seq<ArgumentV>
    decreases items.len(),
{
    if items.len() == 0 {
        Seq::empty()
    } else {
        item_args(items[0]) + items_args(items.drop_first())
    }
}

pub proof fn lemma_items_args_snoc(items: Seq<ItemV>, it: ItemV)
    ensures
        items_args(items.push(it)) == items_args(items) + item_args(it),
    decreases items.len(),
{
    reveal_with_fuel(items_args, 3);
    if items.len() == 0 {
        assert(items.push(it).drop_first() =~= Seq::<ItemV>::empty());
        assert(items.push(it)[0] == it);
        assert(items_args(items.push(it)) =~= items_args(items) + item_args(it));
    } else {
        lemma_items_args_snoc(items.drop_first(), it);
        assert(items.push(it).drop_first() =~= items.drop_first().push(it));
        assert(items.push(it)[0] == items[0]);
        assert(items_args(items.push(it)) =~= items_args(items) + item_args(it));
    }
}

/// Some argument with this value may answer `b` to the callback: the
/// callback was called on such an argument and `b` is an admitted result.
pub open spec fn visit_admits<F: FnMut(&Argument) -> bool>(f: F, a: ArgumentV, b: bool) -> bool {
    exists|x: Argument| x@ == a && call_ensures(f, (&x,), b)
}

/// What one run of the visitor may do: it visits exactly the first `k`
/// referred arguments, in order; every answer before the last was `true`;
/// and when the visit stopped before the end, the last answer was `false`.
pub open spec fn visited_prefix<F: FnMut(&Argument) -> bool>(
    f: F,
    args: Seq<ArgumentV>,
    k: int,
) -> bool {
    &&& 0 <= k <= args.len()
    &&& forall|j: int| 0 <= j < k - 1 ==> #[trigger] visit_admits(f, args[j], true)
    &&& k < args.len() ==> k >= 1 && visit_admits(f, args[k - 1], false)
    &&& (k == args.len() && k >= 1) ==> exists|b: bool| #[trigger] visit_admits(f, args[k - 1], b)
}

impl Argument {
    /// A value equal to this one; names are copied.
    pub fn duplicate(&self) -> (r: Argument)
        ensures
            r@ == self@,
    {
        match self {
            Argument::Next => Argument::Next,
            Argument::Index(n) => Argument::Index(*n),
            Argument::Name(name) => Argument::Name(name.clone()),
        }
    }
}

impl FormatString {
    /// Every argument this template refers to, in visiting order: for each
    /// directive its own argument, then the argument of an indirect width,
    /// then the argument of an indirect precision.
    pub fn arguments(&self) -> (r: Vec<Argument>)
        ensures
            r@.map_values(|a: Argument| a@) == items_args(self@),
    {
        let mut out: Vec<Argument> = Vec::new();
        let n = self.0.len();
        proof {
            assert(self@.take(0) =~= Seq::<ItemV>::empty());
            assert(out@.map_values(|a: Argument| a@) =~= Seq::<ArgumentV>::empty());
        }
        for i in 0..n
            invariant
                n == self.0.len(),
                out@.map_values(|a: Argument| a@) == items_args(self@.take(i as int)),
        {
            let ghost prev = out@.map_values(|a: Argument| a@);
            let ghost it = self@[i as int];
            match &self.0[i] {
                FormatStringItem::Format(fmt) => {
                    out.push(fmt.arg.duplicate());
                    if let Some(sp) = &fmt.format_spec {
                        if let Some(w) = &sp.width {
                            if let Count::Argument(a) = w {
                                out.push(a.duplicate());
                            }
                        }
                        if let Some(p) = &sp.precision {
                            if let Precision::Count(Count::Argument(a)) = p {
                                out.push(a.duplicate());
                            }
                        }
                    }
                    proof {
                        assert(out@.map_values(|a: Argument| a@) =~= prev + item_args(it));
                    }
                },
                _ => {
                    proof {
                        assert(out@.map_values(|a: Argument| a@) =~= prev + item_args(it));
                    }
                },
            }
            proof {
                assert(self@.take(i + 1) =~= self@.take(i as int).push(it));
                lemma_items_args_snoc(self@.take(i as int), it);
            }
        }
        proof {
            assert(self@.take(n as int) =~= self@);
        }
        out
    }

    /// Calls `f` on each referred argument of [`Self::arguments`], in that
    /// order, until `f` answers `false`; no further argument is visited
    /// after that. The callback is a `Fn`: a caller that accumulates state
    /// across calls shares it through a cell.
    pub fn each_argument<F: Fn(&Argument) -> bool>(&self, f: F)
        requires
            forall|a: Argument| call_requires(f, (&a,)),
        ensures
            exists|k: int| visited_prefix(f, items_args(self@), k),
    {
        let args = self.arguments();
        let n = args.len();
        let mut i: usize = 0;
        while i < n
            invariant
                n == args.len(),
                args@.map_values(|a: Argument| a@) == items_args(self@),
                i <= n,
                forall|a: Argument| call_requires(f, (&a,)),
                forall|j: int|
                    0 <= j < i ==> #[trigger] visit_admits(f, items_args(self@)[j], true),
            decreases n - i,
        {
            let keep_going = f(&args[i]);
            proof {
                assert(args@.map_values(|a: Argument| a@)[i as int] == args@[i as int]@);
                assert(visit_admits(f, items_args(self@)[i as int], keep_going)) by {
                    let x = args@[i as int];
                    assert(x@ == items_args(self@)[i as int] && call_ensures(
                        f,
                        (&x,),
                        keep_going,
                    ));
                }
            }
            if !keep_going {
                proof {
                    assert(visit_admits(f, items_args(self@)[(i + 1) - 1], false));
                    assert(i + 1 == items_args(self@).len() ==> exists|b: bool|
                        #[trigger] visit_admits(f, items_args(self@)[(i + 1) - 1], b));
                    assert(visited_prefix(f, items_args(self@), i + 1));
                }
                return ;
            }
            i = i + 1;
        }
        proof {
            if n >= 1 {
                assert(visit_admits(f, items_args(self@)[n - 1], true));
                assert(exists|b: bool|
                    #[trigger] visit_admits(f, items_args(self@)[(n as int) - 1], b));
            }
            assert(visited_prefix(f, items_args(self@), n as int));
        }
    }
}

} // verus!

