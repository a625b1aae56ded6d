//! The volume driver: the calls of the logical-volume manager.

use vstd::prelude::*;
use crate::command::{push_all, Invocation, InvocationModel};
use crate::text::texts;

verus! {

/// How the size of a logical volume is given.
#[derive(Debug, Clone, Copy, PartialEq, Eq)]
pub enum SizeFormat {
    /// In extents, or as a share of them.
    EXTENTS,
    /// In bytes, with a unit.
    SIZE,
}

/// The option that introduces a size of the given format.
pub open spec fn size_option(size_type: SizeFormat) -> Seq<char> {
    match size_type {
        SizeFormat::EXTENTS => "-l"@,
        SizeFormat::SIZE => "-L"@,
    }
}

/// A call of `program` with the leading arguments and then the devices.
pub open spec fn device_call(program: Seq<char>, leading: Seq<Seq<char>>, devices: Seq<Seq<char>>)
    -> InvocationModel {
    InvocationModel { program, args: leading + devices }
}

/// The call that creates a logical volume.
pub open spec fn lv_create_call(
    group_name: Seq<char>,
    devices: Seq<Seq<char>>,
    size_type: SizeFormat,
    size: Seq<char>,
) -> InvocationModel {
    InvocationModel {
        program: "lvcreate"@,
        args: seq![group_name] + devices + seq![size_option(size_type), size],
    }
}

/// The call that resizes a logical volume.
pub open spec fn lv_resize_call(
    volume: Seq<char>,
    resizefs: bool,
    size_type: SizeFormat,
    size: Seq<char>,
) -> InvocationModel {
    InvocationModel {
        program: "lvresize"@,
        args: if resizefs {
            seq![volume, "--resizefs"@, size_option(size_type), size]
        } else {
            seq![volume, size_option(size_type), size]
        },
    }
}

/// The option that introduces a size of the given format.
fn size_flag(size_type: SizeFormat) -> (flag: String)
    ensures
        flag@ == size_option(size_type),
{
    match size_type {
        SizeFormat::EXTENTS => "-l".to_owned(),
        SizeFormat::SIZE => "-L".to_owned(),
    }
}

/// A call of `program` with the leading arguments and then the devices.
fn device_invocation(program: &str, leading: Vec<String>, devices: &Vec<String>) -> (call:
    Invocation)
    ensures
        call@ == device_call(program@, texts(leading@), texts(devices@)),
{
    let mut args = leading;
    push_all(&mut args, devices);
    let call = Invocation { program: program.to_owned(), args };
    proof {
        assert(call.args.deep_view() =~= texts(call.args@));
    }
    call
}

/// Initialize LVM physical volumes.
pub fn lvm_pv_create(partitions: &Vec<String>) -> (call: Invocation)
    ensures
        call@ == device_call("pvcreate"@, Seq::empty(), texts(partitions@)),
{
    let leading: Vec<String> = Vec::new();
    proof {
        assert(texts(leading@) =~= Seq::<Seq<char>>::empty());
    }
    device_invocation("pvcreate", leading, partitions)
}

/// Create an LVM volume group.
pub fn lvm_vg_create(group_name: &str, partitions: &Vec<String>) -> (call: Invocation)
    ensures
        call@ == device_call("vgcreate"@, seq![group_name@], texts(partitions@)),
{
    let mut leading: Vec<String> = Vec::new();
    leading.push(group_name.to_owned());
    proof {
        assert(texts(leading@) =~= seq![group_name@]);
    }
    device_invocation("vgcreate", leading, partitions)
}

/// Create an LVM logical volume.
pub fn lvm_lv_create(
    group_name: &str,
    partitions: &Vec<String>,
    size_type: SizeFormat,
    size: &str,
) -> (call: Invocation)
    ensures
        call@ == lv_create_call(group_name@, texts(partitions@), size_type, size@),
{
    let mut args: Vec<String> = Vec::new();
    args.push(group_name.to_owned());
    proof {
        assert(texts(args@) =~= seq![group_name@]);
    }
    push_all(&mut args, partitions);
    args.push(size_flag(size_type));
    args.push(size.to_owned());
    let call = Invocation { program: "lvcreate".to_owned(), args };
    proof {
        assert(call.args.deep_view() =~= seq![group_name@] + texts(partitions@) + seq![
            size_option(size_type),
            size@,
        ]);
    }
    call
}

/// Resize physical volumes.
pub fn lvm_pv_resize(partitions: &Vec<String>) -> (call: Invocation)
    ensures
        call@ == device_call("pvresize"@, Seq::empty(), texts(partitions@)),
{
    let leading: Vec<String> = Vec::new();
    proof {
        assert(texts(leading@) =~= Seq::<Seq<char>>::empty());
    }
    device_invocation("pvresize", leading, partitions)
}

/// Resize a logical volume.
pub fn lvm_lv_resize(partition: &str, resizefs: bool, size_type: SizeFormat, size: &str) -> (call:
    Invocation)
    ensures
        call@ == lv_resize_call(partition@, resizefs, size_type, size@),
{
    let mut args: Vec<String> = Vec::new();
    args.push(partition.to_owned());
    if resizefs {
        args.push("--resizefs".to_owned());
    }
    args.push(size_flag(size_type));
    args.push(size.to_owned());
    let call = Invocation { program: "lvresize".to_owned(), args };
    proof {
        if resizefs {
            assert(call.args.deep_view() =~= seq![
                partition@,
                "--resizefs"@,
                size_option(size_type),
                size@,
            ]);
        } else {
            assert(call.args.deep_view() =~= seq![partition@, size_option(size_type), size@]);
        }
    }
    call
}

/// Add physical volumes to a volume group.
pub fn lvm_vg_extend(group_name: &str, partitions: &Vec<String>) -> (call: Invocation)
    ensures
        call@ == device_call("vgextend"@, seq![group_name@], texts(partitions@)),
{
    let mut leading: Vec<String> = Vec::new();
    leading.push(group_name.to_owned());
    proof {
        assert(texts(leading@) =~= seq![group_name@]);
    }
    device_invocation("vgextend", leading, partitions)
}

} // verus!
