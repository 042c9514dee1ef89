use vstd::prelude::*;
use vstd::string::*;

verus! {

/// The command line registered under the run-at-login mechanism for an
/// executable and its launch marker: `<executable path> <marker>`.
pub open spec fn registration_value(exe: Seq<char>, marker: Seq<char>) -> Seq<char> {
    exe + seq![' '] + marker
}

/// Whether a registry state needs a write to hold the desired record.
pub open spec fn needs_write(
    current: Option<Seq<char>>,
    exe: Seq<char>,
    marker: Seq<char>,
) -> bool {
    !(current matches Some(c) && c == registration_value(exe, marker))
}

/// The registry state after the registration is ensured: exactly the
/// desired record, whatever stood there before.
pub open spec fn registered_after(
    current: Option<Seq<char>>,
    exe: Seq<char>,
    marker: Seq<char>,
) -> Option<Seq<char>> {
    Some(registration_value(exe, marker))
}

/// The command line to register for `exe` with launch marker `marker`.
pub fn desired_registration(exe: &str, marker: &str) -> (r: String)
    ensures
        r@ == registration_value(exe@, marker@),
{
    proof {
        reveal_strlit(" ");
        assert((" ")@ =~= seq![' ']);
    }
    let mut s = exe.to_owned();
    s.append(" ");
    s.append(marker);
    s
}

/// Decides the idempotent registration update: nothing when the current
/// record already holds the desired command line, else the command line
/// that must be written. The caller performs the write; its failure is
/// reported as a recoverable error, never fatal.
pub fn registration_update(current: Option<&String>, exe: &str, marker: &str) -> (r: Option<
    String,
>)
    ensures
        r is None <==> !needs_write(
            match current {
                Some(c) => Some(c@),
                None => None,
            },
            exe@,
            marker@,
        ),
        r matches Some(w) ==> w@ == registration_value(exe@, marker@),
{
    let desired = desired_registration(exe, marker);
    match current {
        Some(c) => {
            if *c == desired {
                None
            } else {
                Some(desired)
            }
        },
        None => Some(desired),
    }
}

/// Law: ensuring the registration is idempotent. After one ensure the
/// record holds the desired command line; ensuring again with the same
/// arguments needs no write and leaves the record unchanged.
pub proof fn lemma_registration_idempotent(
    current: Option<Seq<char>>,
    exe: Seq<char>,
    marker: Seq<char>,
)
    ensures
        registered_after(registered_after(current, exe, marker), exe, marker) == registered_after(
            current,
            exe,
            marker,
        ),
        !needs_write(registered_after(current, exe, marker), exe, marker),
{
}

} // verus!
