//! The routing envelope plus payload carried by every frame.

use vstd::prelude::*;

verus! {

/// An AX.25 UI packet: source and destination callsigns, the ordered list of
/// digipeaters that will repeat it, and the information field.
#[derive(Debug)]
pub struct AprsPacket {
    pub source: String,
    pub destination: String,
    pub digipeaters: Vec<String>,
    pub information: String,
}

impl AprsPacket {
    /// Builds a packet from borrowed parts; no normalisation happens here,
    /// the address codec normalises at serialisation time.
    pub fn new(
        source: &str,
        destination: &str,
        digipeaters: &Vec<String>,
        information: &str,
    ) -> (r: AprsPacket)
        ensures
            r.source@ == source@,
            r.destination@ == destination@,
            r.digipeaters.deep_view() == digipeaters.deep_view(),
            r.information@ == information@,
    {
        broadcast use vstd::std_specs::vec::vec_clone_deep_view_proof;

        AprsPacket {
            source: source.to_owned(),
            destination: destination.to_owned(),
            digipeaters: digipeaters.clone(),
            information: information.to_owned(),
        }
    }
}

} // verus!
