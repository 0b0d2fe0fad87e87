//! Helpers for plugins that serve calls with a list of value arguments.

use vstd::prelude::*;

use crate::value::Value;

verus! {

/// A copy of argument `index`; "arg not found" when there is none. The
/// caller converts it to the type it wants and reports a failed conversion
/// with `invalid_arg`.
pub fn get_arg(args: &[Value], index: usize) -> (r: Result<Value, String>)
    ensures
        index < args@.len() ==> (r matches Ok(v) && v@ == args@[index as int]@),
        index >= args@.len() ==> (r matches Err(e) && e@ == "arg not found"@),
{
    if index < args.len() {
        Ok(args[index].deep_clone())
    } else {
        Err("arg not found".to_owned())
    }
}

/// A conversion's result with its error replaced by "invalid arg".
pub fn invalid_arg<T, E>(r: Result<T, E>) -> (o: Result<T, String>)
    ensures
        r matches Ok(v) ==> o == Ok::<T, String>(v),
        r is Err ==> (o matches Err(e) && e@ == "invalid arg"@),
{
    match r {
        Ok(v) => Ok(v),
        Err(_) => Err("invalid arg".to_owned()),
    }
}

} // verus!
