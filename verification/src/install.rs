//! Desktop-background installation decisions: which configuration schemas
//! are tried, the URI handed to them, and when the installation as a whole
//! counts as a success.
//!
//! Invoking the external configuration tool is the caller's business; for
//! each schema it reports whether the image-location setting and the
//! spanned-layout setting were accepted, and the verdict is decided here.

use vstd::prelude::*;
use vstd::string::StringExecFns;

verus! {

/// The candidate desktop-environment schemas, tried in order.
pub fn schema_list() -> (r: Vec<&'static str>)
    ensures
        r@.len() == 3,
        r@[0]@ == "org.cinnamon.desktop.background"@,
        r@[1]@ == "org.gnome.desktop.background"@,
        r@[2]@ == "org.mate.background"@,
{
    let mut r: Vec<&'static str> = Vec::new();
    r.push("org.cinnamon.desktop.background");
    r.push("org.gnome.desktop.background");
    r.push("org.mate.background");
    r
}

/// The image-location value handed to each schema: the saved file's path
/// as a `file://` URI.
pub fn file_uri(path: &str) -> (r: String)
    ensures
        r@ == "file://"@ + path@,
{
    let mut s = String::from_str("file://");
    s.append(path);
    s
}

/// The installation outcome: per schema the caller reports whether the
/// image-location setting and the layout setting were accepted; the
/// installation succeeds exactly when at least one schema accepted both,
/// and fails with the no-supported-desktop message otherwise.
pub fn install_outcome(accepted: &Vec<(bool, bool)>) -> (r: Result<(), String>)
    ensures
        r is Ok <==> exists|i: int|
            0 <= i < accepted@.len() && (#[trigger] accepted@[i]).0 && accepted@[i].1,
        r matches Err(m) ==> m@ == "no supported desktop environment found"@,
{
    let mut i: usize = 0;
    while i < accepted.len()
        invariant
            i <= accepted@.len(),
            forall|j: int| 0 <= j < i ==> !((#[trigger] accepted@[j]).0 && accepted@[j].1),
        decreases accepted@.len() - i,
    {
        let (location_ok, layout_ok) = accepted[i];
        if location_ok && layout_ok {
            assert(accepted@[i as int].0 && accepted@[i as int].1);
            return Ok(());
        }
        i = i + 1;
    }
    Err(String::from_str("no supported desktop environment found"))
}

} // verus!
