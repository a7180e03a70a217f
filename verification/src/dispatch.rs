use crate::errors::OrderError;
use vstd::prelude::*;

verus! {

/// The operation one invocation performs, with its positional argument.
#[derive(Debug)]
pub enum Command {
    /// Query the status of an order by its external reference.
    Status { external_reference: String },
    /// Cancel the open orders of the configured POS.
    Cancel,
    /// Create the order described by the pending-order file.
    Create,
    /// Search merchant orders, with an optional verbatim filter string.
    Search { filter: String },
}

fn str_equal(a: &String, b: &str) -> (r: bool)
    ensures
        r == (a@ == b@),
{
    let tok = String::from_str(b);
    a.eq(&tok)
}

/// Maps the positional arguments to an operation. Exactly one or two
/// positional arguments are accepted; the status query demands its external
/// reference, cancel and create tolerate at most an empty second argument,
/// and the search filter is optional. Anything else is a usage error.
pub fn dispatch(args: &Vec<String>) -> (r: Result<Command, OrderError>)
    ensures
        (args@.len() == 0 || args@.len() > 2) ==> (r matches Err(e) && e
            == OrderError::UsageError),
        1 <= args@.len() <= 2 ==> ({
            let kw = args@[0]@;
            let has_arg = args@.len() == 2 && args@[1]@.len() > 0;
            &&& (kw == "ORDENSTATUSER"@ && has_arg) ==> (r matches Ok(c) && c matches
                Command::Status { external_reference } && external_reference@ == args@[1]@)
            &&& (kw == "ORDENSTATUSER"@ && !has_arg) ==> (r matches Err(e) && e
                == OrderError::UsageError)
            &&& (kw != "ORDENSTATUSER"@ && kw == "ORDENELIMINAR"@ && !has_arg) ==> (r matches Ok(c)
                && c is Cancel)
            &&& (kw != "ORDENSTATUSER"@ && kw == "ORDENELIMINAR"@ && has_arg) ==> (r matches Err(e)
                && e == OrderError::UsageError)
            &&& (kw != "ORDENSTATUSER"@ && kw != "ORDENELIMINAR"@ && kw == "ORDENCREAR"@ && !has_arg)
                ==> (r matches Ok(c) && c is Create)
            &&& (kw != "ORDENSTATUSER"@ && kw != "ORDENELIMINAR"@ && kw == "ORDENCREAR"@ && has_arg)
                ==> (r matches Err(e) && e == OrderError::UsageError)
            &&& (kw != "ORDENSTATUSER"@ && kw != "ORDENELIMINAR"@ && kw != "ORDENCREAR"@ && kw
                == "ORDENBUSCAR"@) ==> (r matches Ok(c) && c matches Command::Search { filter }
                && filter@ == (if args@.len() == 2 {
                args@[1]@
            } else {
                Seq::<char>::empty()
            }))
            &&& (kw != "ORDENSTATUSER"@ && kw != "ORDENELIMINAR"@ && kw != "ORDENCREAR"@ && kw
                != "ORDENBUSCAR"@) ==> (r matches Err(e) && e == OrderError::UsageError)
        }),
{
    if args.len() == 0 || args.len() > 2 {
        return Err(OrderError::UsageError);
    }
    let has_arg = args.len() == 2 && !args[1].as_str().is_empty();
    if str_equal(&args[0], "ORDENSTATUSER") {
        if has_arg {
            Ok(Command::Status { external_reference: args[1].clone() })
        } else {
            Err(OrderError::UsageError)
        }
    } else if str_equal(&args[0], "ORDENELIMINAR") {
        if has_arg {
            Err(OrderError::UsageError)
        } else {
            Ok(Command::Cancel)
        }
    } else if str_equal(&args[0], "ORDENCREAR") {
        if has_arg {
            Err(OrderError::UsageError)
        } else {
            Ok(Command::Create)
        }
    } else if str_equal(&args[0], "ORDENBUSCAR") {
        if args.len() == 2 {
            Ok(Command::Search { filter: args[1].clone() })
        } else {
            let empty = String::new();
            proof {
                assert(empty@ =~= Seq::<char>::empty());
            }
            Ok(Command::Search { filter: empty })
        }
    } else {
        Err(OrderError::UsageError)
    }
}

} // verus!
