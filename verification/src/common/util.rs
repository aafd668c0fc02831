//! Small extensions of `Vec` and `Result`.
use vstd::prelude::*;

verus! {

pub trait VecExt<T> {
    /// Pops items from the end of a vector for as long as the predicate
    /// holds of the last one.
    fn pop_while<F>(&mut self, predicate: F) where F: Fn(&T) -> bool
        requires
            forall|item: &T| predicate.requires((item,)),
    ;
}

impl<T> VecExt<T> for Vec<T> {
    fn pop_while<F>(&mut self, predicate: F) where F: Fn(&T) -> bool
        ensures
            final(self)@.len() <= old(self)@.len(),
            final(self)@ == old(self)@.take(final(self)@.len() as int),
            forall|i: int|
                final(self)@.len() <= i < old(self)@.len() ==> predicate.ensures(
                    (&#[trigger] old(self)@[i],),
                    true,
                ),
            final(self)@.len() > 0 ==> predicate.ensures((&old(self)@[final(self)@.len() - 1],), false),
    {
        let ghost initial = self@;
        loop
            invariant
                self@.len() <= initial.len(),
                self@ == initial.take(self@.len() as int),
                forall|item: &T| predicate.requires((item,)),
                forall|i: int|
                    self@.len() <= i < initial.len() ==> predicate.ensures(
                        (&#[trigger] initial[i],),
                        true,
                    ),
            ensures
                self@.len() > 0 ==> predicate.ensures((&initial[self@.len() - 1],), false),
            decreases self@.len(),
        {
            let n = self.len();
            if n == 0 {
                break ;
            }
            if !predicate(&self[n - 1]) {
                break ;
            }
            self.pop();
            assert(self@ =~= initial.take(self@.len() as int));
        }
    }
}

pub trait ResultExt<T, E> {
    /// Turns the error of a result into a list of that one error.
    fn vec_err(self) -> Result<T, Vec<E>>;
}

impl<T, E> ResultExt<T, E> for Result<T, E> {
    fn vec_err(self) -> (listed: Result<T, Vec<E>>)
        ensures
            match self {
                Ok(value) => listed == Ok::<T, Vec<E>>(value),
                Err(error) => listed is Err && listed->Err_0@ == seq![error],
            },
    {
        match self {
            Ok(value) => Ok(value),
            Err(error) => {
                let mut errors = Vec::new();
                errors.push(error);
                assert(errors@ =~= seq![error]);
                Err(errors)
            },
        }
    }
}

} // verus!
