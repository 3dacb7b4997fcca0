//! What RAUC reports of its slots and of a running installation.
use vstd::prelude::*;
use crate::text;

verus! {

/// One slot of the A/B layout.
pub struct SlotStatus {
    pub name: String,
    pub class: String,
    pub device: String,
    pub state: String,
    pub version: String,
    pub booted: bool,
}

/// How far an installation has come.
pub struct InstallProgress {
    pub percentage: i32,
    pub message: String,
}

/// The class of a slot: its name up to the first `.` (`rootfs` of `rootfs.0`).
pub open spec fn slot_class(name: Seq<char>) -> Seq<char> {
    text::split_char(name, '.')[0]
}

/// The status of a slot from the properties RAUC lists for it; the slot is
/// the booted one when its boot name or its name is the boot slot.
pub fn slot_status(
    name: String,
    device: String,
    state: String,
    version: String,
    bootname: &str,
    boot_slot: &str,
) -> (r: SlotStatus)
    ensures
        r.name@ == name@,
        r.class@ == slot_class(name@),
        r.device@ == device@,
        r.state@ == state@,
        r.version@ == version@,
        r.booted == (bootname@ == boot_slot@ || name@ == boot_slot@),
{
    let v = text::chars_of(name.as_str());
    let pieces = text::split_on(&v, '.');
    proof {
        text::lemma_split_char_nonempty(v@, '.');
        text::lemma_deep_view_chars(&pieces@[0]);
    }
    let class = text::string_of(&pieces[0]);
    let b = text::chars_of(bootname);
    let s = text::chars_of(boot_slot);
    let booted = text::chars_eq(&b, &s) || text::chars_eq(&v, &s);
    SlotStatus { name, class, device, state, version, booted }
}

/// The progress RAUC reports as percentage, message and nesting depth; the
/// depth is not kept.
pub fn install_progress(percentage: i32, message: String, depth: i32) -> (r: InstallProgress)
    ensures
        r.percentage == percentage,
        r.message@ == message@,
{
    InstallProgress { percentage, message }
}

} // verus!
