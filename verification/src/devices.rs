//! Removable volumes: which to show, what their menu offers, and how they are
//! ejected, decided from the state the volume monitor reports.

use vstd::prelude::*;
use crate::text::string_from;

verus! {

/// What the volume monitor reports of a mounted file system.
#[derive(Debug, Clone, Copy, PartialEq, Eq, Structural)]
pub struct MountState {
    pub can_unmount: bool,
    pub can_eject: bool,
}

/// What the volume monitor reports of a drive.
#[derive(Debug, Clone, Copy, PartialEq, Eq, Structural)]
pub struct DriveState {
    pub is_removable: bool,
    pub can_eject: bool,
}

/// What the volume monitor reports of a volume.
#[derive(Debug, Clone, Copy, PartialEq, Eq, Structural)]
pub struct VolumeState {
    pub can_eject: bool,
    pub drive: Option<DriveState>,
    pub mount: Option<MountState>,
}

/// Whether the dock shows the volume: it can be ejected; else its drive is removable or can
/// be ejected; else (without a drive) its mount can be unmounted or ejected.
pub fn is_removable(v: &VolumeState) -> (r: bool)
    ensures
        r == if v.can_eject {
            true
        } else {
            match v.drive {
                Some(d) => d.is_removable || d.can_eject,
                None => match v.mount {
                    Some(m) => m.can_unmount || m.can_eject,
                    None => false,
                },
            }
        },
{
    if v.can_eject {
        return true;
    }
    match v.drive {
        Some(d) => d.is_removable || d.can_eject,
        None => match v.mount {
            Some(m) => m.can_unmount || m.can_eject,
            None => false,
        },
    }
}

/// Whether the volume's menu offers to eject or unmount it.
pub fn ejectable(v: &VolumeState) -> (r: bool)
    ensures
        r == (v.can_eject || match v.mount {
            Some(m) => m.can_eject || m.can_unmount,
            None => false,
        }),
{
    v.can_eject || match v.mount {
        Some(m) => m.can_eject || m.can_unmount,
        None => false,
    }
}

/// The label of that menu entry: "Eject" when the volume or its mount can be ejected, else
/// "Unmount".
pub fn eject_label(v: &VolumeState) -> (r: &'static str)
    ensures
        r@ == if v.can_eject || (v.mount is Some && v.mount->0.can_eject) {
            "Eject"@
        } else {
            "Unmount"@
        },
{
    let can_eject = v.can_eject || match v.mount {
        Some(m) => m.can_eject,
        None => false,
    };
    if can_eject {
        "Eject"
    } else {
        "Unmount"
    }
}

/// How a volume is taken away.
#[derive(Debug, Clone, Copy, PartialEq, Eq, Structural)]
pub enum EjectPlan {
    EjectVolume,
    EjectMount,
    UnmountMount,
    Nothing,
}

/// How the volume is taken away: eject the volume when it can be; else eject its mount, or
/// unmount it; else nothing.
pub fn eject_plan(v: &VolumeState) -> (r: EjectPlan)
    ensures
        r == if v.can_eject {
            EjectPlan::EjectVolume
        } else {
            match v.mount {
                Some(m) => if m.can_eject {
                    EjectPlan::EjectMount
                } else if m.can_unmount {
                    EjectPlan::UnmountMount
                } else {
                    EjectPlan::Nothing
                },
                None => EjectPlan::Nothing,
            }
        },
{
    if v.can_eject {
        return EjectPlan::EjectVolume;
    }
    match v.mount {
        Some(m) => if m.can_eject {
            EjectPlan::EjectMount
        } else if m.can_unmount {
            EjectPlan::UnmountMount
        } else {
            EjectPlan::Nothing
        },
        None => EjectPlan::Nothing,
    }
}

/// The id of a volume: its UUID, else its unix device, else its name.
pub fn device_id(uuid: Option<&str>, unix_device: Option<&str>, name: &str) -> (r: String)
    ensures
        r@ == match uuid {
            Some(u) => u@,
            None => match unix_device {
                Some(d) => d@,
                None => name@,
            },
        },
{
    match uuid {
        Some(u) => string_from(u),
        None => match unix_device {
            Some(d) => string_from(d),
            None => string_from(name),
        },
    }
}

}
