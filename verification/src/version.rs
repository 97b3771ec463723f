use vstd::prelude::*;

verus! {

/// The release of KCL that this library belongs to.
pub const VERSION: &'static str = "0.4.2";

/// The checksum of the release.
pub const CHECK_SUM: &'static str = "d6a5247bbfd8c157ac132105f4f57475";

/// The release and its checksum, joined by a dash.
pub fn get_full_version() -> (r: String)
    ensures
        r@ == VERSION@ + seq!['-'] + CHECK_SUM@,
{
    let mut s = String::from_str(VERSION);
    proof {
        reveal_strlit("-");
    }
    s.append("-");
    s.append(CHECK_SUM);
    s
}

} // verus!
