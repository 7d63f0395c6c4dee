//! The location of the trust file, resolved from the caller's two
//! home-directory values.
//!
//! The trust file lives at `<home>/.ssh/known_hosts`. The home directory
//! is the primary value when present, else the secondary fallback; when
//! neither is present no path can be resolved, which callers surface as a
//! "not found" error. Reading the two environment variables, and turning
//! the resolved bytes into an operating-system path, is left to the
//! caller.

use vstd::prelude::*;

verus! {

/// The bytes of `/.ssh/known_hosts`.
pub open spec fn ssh_suffix() -> Seq<u8> {
    seq![
        47u8,
        46u8,
        115u8,
        115u8,
        104u8,
        47u8,
        107u8,
        110u8,
        111u8,
        119u8,
        110u8,
        95u8,
        104u8,
        111u8,
        115u8,
        116u8,
        115u8,
    ]
}

/// The trust-file path from the two home-directory values: the primary
/// when present, else the secondary, else nothing.
pub fn known_hosts_path(home: Option<Vec<u8>>, userprofile: Option<Vec<u8>>) -> (r: Option<
    Vec<u8>,
>)
    ensures
        (r is None) <==> (home is None && userprofile is None),
        home is Some ==> r is Some && r->0@ == home->0@ + ssh_suffix(),
        home is None && userprofile is Some ==> r is Some && r->0@ == userprofile->0@
            + ssh_suffix(),
{
    let base = match home {
        Some(h) => h,
        None => match userprofile {
            Some(u) => u,
            None => {
                return None;
            },
        },
    };
    let ghost base0 = base@;
    let mut p = base;
    p.push(47);
    p.push(46);
    p.push(115);
    p.push(115);
    p.push(104);
    p.push(47);
    p.push(107);
    p.push(110);
    p.push(111);
    p.push(119);
    p.push(110);
    p.push(95);
    p.push(104);
    p.push(111);
    p.push(115);
    p.push(116);
    p.push(115);
    proof {
        assert(p@ =~= base0 + ssh_suffix());
    }
    Some(p)
}

} // verus!
