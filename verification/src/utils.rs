use vstd::prelude::*;

verus! {

/// Values that hand out their content, if any, as an `Option` at a point the caller names.
pub trait Loggable<T>: Sized {
    /// The content handed out.
    spec fn logged_value(&self) -> Option<T>;

    /// Hands out the content; `ctx` names the place in the caller.
    fn make_log(self, ctx: &str) -> (r: Option<T>)
        ensures
            r == self.logged_value(),
    ;
}

impl<T, E> Loggable<T> for Result<T, E> {
    /// The `Ok` value; nothing for an error.
    open spec fn logged_value(&self) -> Option<T> {
        match self {
            Ok(v) => Some(*v),
            Err(_) => None,
        }
    }

    fn make_log(self, ctx: &str) -> (r: Option<T>) {
        match self {
            Ok(val) => Some(val),
            Err(_) => None,
        }
    }
}

impl<T> Loggable<T> for Option<T> {
    /// The option itself.
    open spec fn logged_value(&self) -> Option<T> {
        *self
    }

    fn make_log(self, ctx: &str) -> (r: Option<T>) {
        match self {
            Some(val) => Some(val),
            None => None,
        }
    }
}

} // verus!
