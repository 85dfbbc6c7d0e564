//! Errors of the benchmark library.
use vstd::prelude::*;

verus! {

/// What can go wrong while a dataset is generated or loaded.
#[derive(Debug)]
pub enum BenchError {
    /// The tokenizer failed, or cannot be used for the request.
    Tokenizer(String),
    /// An option or an input file cannot be used.
    Config(String),
}

/// The mathematical value of a [`BenchError`].
pub enum BenchErrorView {
    Tokenizer(Seq<char>),
    Config(Seq<char>),
}

impl View for BenchError {
    type V = BenchErrorView;

    open spec fn view(&self) -> BenchErrorView {
        match self {
            BenchError::Tokenizer(text) => BenchErrorView::Tokenizer(text@),
            BenchError::Config(text) => BenchErrorView::Config(text@),
        }
    }
}

/// A result seen through the views of its value and of its error.
pub open spec fn result_view<T: View>(result: Result<T, BenchError>) -> Result<
    T::V,
    BenchErrorView,
> {
    match result {
        Ok(value) => Ok(value@),
        Err(error) => Err(error@),
    }
}

/// The values of `f` from 0 to `n - 1`, or the first error among them.
pub open spec fn collected<T>(f: spec_fn(int) -> Result<T, BenchErrorView>, n: nat) -> Result<
    Seq<T>,
    BenchErrorView,
>
    decreases n,
{
    if n == 0 {
        Ok(Seq::empty())
    } else {
        match collected(f, (n - 1) as nat) {
            Err(error) => Err(error),
            Ok(values) => match f(n - 1) {
                Err(error) => Err(error),
                Ok(value) => Ok(values.push(value)),
            },
        }
    }
}

/// Where `first` is an error, so is `whole`, and the same.
pub open spec fn stops_early<T>(
    first: Result<Seq<T>, BenchErrorView>,
    whole: Result<Seq<T>, BenchErrorView>,
) -> bool {
    first matches Err(error) ==> whole == Err::<Seq<T>, BenchErrorView>(error)
}

/// An error among the first values is an error of the whole.
pub proof fn law_collected_stops_at_first_error<T>(
    f: spec_fn(int) -> Result<T, BenchErrorView>,
    i: nat,
    n: nat,
)
    requires
        i <= n,
    ensures
        stops_early(collected(f, i), collected(f, n)),
    decreases n,
{
    if i < n {
        law_collected_stops_at_first_error(f, i, (n - 1) as nat);
    }
}

/// Without an error among them, all values are collected.
pub proof fn law_collected_succeeds<T>(f: spec_fn(int) -> Result<T, BenchErrorView>, n: nat)
    requires
        forall|i: int| 0 <= i < n ==> (#[trigger] f(i)) is Ok,
    ensures
        collected(f, n) is Ok,
    decreases n,
{
    if n > 0 {
        law_collected_succeeds(f, (n - 1) as nat);
        assert(f(n - 1) is Ok);
    }
}

/// Values that are all there are collected in order.
pub proof fn law_collected_keeps_order<T>(f: spec_fn(int) -> Result<T, BenchErrorView>, n: nat)
    ensures
        collected(f, n) matches Ok(values) ==> values.len() == n && forall|i: int|
            0 <= i < n ==> #[trigger] f(i) == Ok::<T, BenchErrorView>(values[i]),
    decreases n,
{
    if n > 0 {
        law_collected_keeps_order(f, (n - 1) as nat);
    }
}

/// What is collected depends on the values alone.
pub proof fn law_collected_by_values<T>(
    f: spec_fn(int) -> Result<T, BenchErrorView>,
    g: spec_fn(int) -> Result<T, BenchErrorView>,
    n: nat,
)
    requires
        forall|i: int| 0 <= i < n ==> #[trigger] f(i) == g(i),
    ensures
        collected(f, n) == collected(g, n),
    decreases n,
{
    if n > 0 {
        law_collected_by_values(f, g, (n - 1) as nat);
        assert(f(n - 1) == g(n - 1));
    }
}

/// Collecting fewer values gives the first of them.
pub proof fn law_collected_fewer<T>(
    f: spec_fn(int) -> Result<T, BenchErrorView>,
    n: nat,
    m: nat,
)
    requires
        n <= m,
    ensures
        collected(f, m) matches Ok(values) ==> collected(f, n) == Ok::<Seq<T>, BenchErrorView>(
            values.take(n as int),
        ),
    decreases m,
{
    law_collected_keeps_order(f, m);
    if n == m {
        if collected(f, m) is Ok {
            let values = collected(f, m)->Ok_0;
            assert(values.take(n as int) =~= values);
        }
    } else {
        law_collected_fewer(f, n, (m - 1) as nat);
        law_collected_keeps_order(f, (m - 1) as nat);
        if collected(f, m) is Ok {
            let values = collected(f, m)->Ok_0;
            let before = collected(f, (m - 1) as nat)->Ok_0;
            assert(values.take(n as int) =~= before.take(n as int));
        }
    }
}

/// The first error is the one that comes out.
pub proof fn law_collected_gives_the_first_error<T>(
    f: spec_fn(int) -> Result<T, BenchErrorView>,
    error: BenchErrorView,
    i: nat,
    n: nat,
)
    requires
        i < n,
        forall|j: int| 0 <= j < i ==> (#[trigger] f(j)) is Ok,
        f(i as int) == Err::<T, BenchErrorView>(error),
    ensures
        collected(f, n) == Err::<Seq<T>, BenchErrorView>(error),
{
    law_collected_succeeds(f, i);
    law_collected_stops_at_first_error(f, i + 1, n);
}

/// An error that comes out is one of the values.
pub proof fn law_collected_errors_are_values<T>(
    f: spec_fn(int) -> Result<T, BenchErrorView>,
    n: nat,
) -> (i: int)
    requires
        collected(f, n) is Err,
    ensures
        0 <= i < n,
        f(i) == Err::<T, BenchErrorView>(collected(f, n)->Err_0),
    decreases n,
{
    if collected(f, (n - 1) as nat) is Err {
        law_collected_errors_are_values(f, (n - 1) as nat)
    } else {
        n - 1
    }
}

/// Values and errors are seen by their texts.
pub proof fn law_errors_are_seen_by_their_texts(text: String)
    ensures
        BenchError::Tokenizer(text)@ == BenchErrorView::Tokenizer(text@),
        BenchError::Config(text)@ == BenchErrorView::Config(text@),
        result_view(Ok::<String, BenchError>(text)) == Ok::<Seq<char>, BenchErrorView>(text@),
        result_view(Err::<String, BenchError>(BenchError::Config(text))) == Err::<
            Seq<char>,
            BenchErrorView,
        >(BenchErrorView::Config(text@)),
{
}

} // verus!
