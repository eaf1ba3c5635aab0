use vstd::prelude::*;

verus! {

/// The state of one analysis run inside the compiler: the name of the source
/// being compiled and the directory of the crate it belongs to.
pub struct RfocxtCallbacks {
    pub source_name: String,
    pub crate_path: String,
}

impl RfocxtCallbacks {
    pub fn new(crate_path: String) -> (r: RfocxtCallbacks)
        ensures
            r.source_name@ == Seq::<char>::empty(),
            r.crate_path@ == crate_path@,
    {
        RfocxtCallbacks { source_name: String::new(), crate_path }
    }
}

} // verus!
