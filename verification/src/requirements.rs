//! Deciding, from the probes' plain outcomes, which required backend
//! executables are missing.
//!
//! Probing itself (running a lookup such as `which` and capturing its
//! output) is the caller's concern; these functions only judge the
//! outcomes, and collect every missing requirement so all of them can
//! be reported together in one pass.

use vstd::prelude::*;

use crate::text::string_views;

verus! {

/// Judge one probe: `probe_output_len` is the byte count the lookup
/// printed for `required_command`, or `None` when the lookup itself
/// could not be run.  Empty output means the executable was not found.
pub fn evaluate_requirement(required_command: &str, probe_output_len: Option<usize>) -> (r: Result<
    (),
    String,
>)
    ensures
        match probe_output_len {
            None => match r {
                Ok(_) => false,
                Err(m) => m@ == "Error Running `which`"@,
            },
            Some(n) => if n == 0 {
                match r {
                    Ok(_) => false,
                    Err(m) => m@ == "requirement not found: "@ + required_command@,
                }
            } else {
                r is Ok
            },
        },
{
    match probe_output_len {
        None => Err(String::from_str("Error Running `which`")),
        Some(n) => {
            if n == 0 {
                Err(String::from_str("requirement not found: ").concat(required_command))
            } else {
                Ok(())
            }
        },
    }
}

/// The error messages among the judged probes, in order.
pub open spec fn error_messages(checks: Seq<Result<(), String>>) -> Seq<Seq<char>>
    decreases checks.len(),
{
    if checks.len() == 0 {
        Seq::<Seq<char>>::empty()
    } else {
        let prefix = error_messages(checks.drop_last());
        match checks.last() {
            Ok(_) => prefix,
            Err(m) => prefix.push(m@),
        }
    }
}

/// Collect every failed requirement's message, in order, so that the
/// caller can report all missing backends together rather than one at
/// a time.
pub fn requirement_errors(checks: Vec<Result<(), String>>) -> (errs: Vec<String>)
    ensures
        string_views(errs@) == error_messages(checks@),
{
    let ghost orig = checks@;
    let mut rest = checks;
    let mut errs: Vec<String> = Vec::new();
    proof {
        assert(orig.subrange(0, 0) =~= Seq::<Result<(), String>>::empty());
        assert(orig.skip(0) =~= orig);
        assert(string_views(errs@) =~= Seq::<Seq<char>>::empty());
    }
    while rest.len() > 0
        invariant
            rest@.len() <= orig.len(),
            orig.skip(orig.len() - rest@.len()) == rest@,
            string_views(errs@) == error_messages(orig.subrange(0, orig.len() - rest@.len())),
        decreases rest@.len(),
    {
        let ghost j = orig.len() - rest@.len();
        let check = rest.remove(0);
        proof {
            assert(check == orig.skip(j as int)[0]);
            assert(check == orig[j as int]);
            assert(rest@ =~= orig.skip(j + 1));
            assert(orig.subrange(0, j + 1).drop_last() =~= orig.subrange(0, j as int));
            assert(orig.subrange(0, j + 1).last() == orig[j as int]);
        }
        match check {
            Ok(_) => (),
            Err(m) => {
                proof {
                    assert(string_views(errs@.push(m)) =~= string_views(errs@).push(m@));
                }
                errs.push(m);
            },
        }
    }
    proof {
        assert(orig.subrange(0, orig.len() as int) =~= orig);
    }
    errs
}

} // verus!
