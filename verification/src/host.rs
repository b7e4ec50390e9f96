use vstd::prelude::*;

verus! {

/// Number of host functions the VM provides
pub const NUM_HOST_FNS: usize = 95;

/// Identifies a host function by its position in the host function
/// table. Narrow enough to sit in an instruction operand.
#[derive(Copy, Clone, Debug, Default, PartialEq, Eq, Structural)]
pub struct HostFnId {
    idx: u16,
}

impl HostFnId {
    pub closed spec fn index(self) -> nat {
        self.idx as nat
    }

    pub closed spec fn wf(self) -> bool {
        self.idx < NUM_HOST_FNS
    }

    /// Recover an id from its index, as an instruction operand holds it
    pub fn from_index(idx: u16) -> (r: HostFnId)
        requires
            idx < NUM_HOST_FNS,
        ensures
            r.index() == idx,
            r.wf(),
    {
        HostFnId { idx }
    }

    /// Index of this id in the host function table
    pub fn to_index(self) -> (r: u16)
        ensures
            r == self.index(),
            self.wf() ==> r < NUM_HOST_FNS,
    {
        self.idx
    }
}


/// Number of host functions that Plush code names directly. They come
/// first in the host function table, before the methods
pub const NUM_HOST_GLOBALS: usize = 28;

/// Name of a host function that Plush code names directly
pub open spec fn spec_global_name(i: nat) -> Seq<char> {
    if i == 0 { "time_current_ms"@ }
    else if i == 1 { "cmd_num_args"@ }
    else if i == 2 { "cmd_get_arg"@ }
    else if i == 3 { "cmd_get_arg_or"@ }
    else if i == 4 { "print"@ }
    else if i == 5 { "println"@ }
    else if i == 6 { "readln"@ }
    else if i == 7 { "read_file"@ }
    else if i == 8 { "read_file_utf8"@ }
    else if i == 9 { "write_file"@ }
    else if i == 10 { "make_dir"@ }
    else if i == 11 { "vm_shrink_heap"@ }
    else if i == 12 { "vm_gc_collect"@ }
    else if i == 13 { "actor_id"@ }
    else if i == 14 { "actor_parent"@ }
    else if i == 15 { "actor_sleep"@ }
    else if i == 16 { "actor_spawn"@ }
    else if i == 17 { "actor_join"@ }
    else if i == 18 { "actor_send"@ }
    else if i == 19 { "actor_recv"@ }
    else if i == 20 { "actor_poll"@ }
    else if i == 21 { "window_create"@ }
    else if i == 22 { "window_draw_frame"@ }
    else if i == 23 { "audio_open_output"@ }
    else if i == 24 { "audio_write_samples"@ }
    else if i == 25 { "audio_open_input"@ }
    else if i == 26 { "audio_read_samples"@ }
    else { "exit"@ }
}

/// Name of a host function that Plush code names directly
pub fn global_name(i: usize) -> (r: &'static str)
    requires
        i < NUM_HOST_GLOBALS,
    ensures
        r@ == spec_global_name(i as nat),
{
    match i {
        0 => "time_current_ms",
        1 => "cmd_num_args",
        2 => "cmd_get_arg",
        3 => "cmd_get_arg_or",
        4 => "print",
        5 => "println",
        6 => "readln",
        7 => "read_file",
        8 => "read_file_utf8",
        9 => "write_file",
        10 => "make_dir",
        11 => "vm_shrink_heap",
        12 => "vm_gc_collect",
        13 => "actor_id",
        14 => "actor_parent",
        15 => "actor_sleep",
        16 => "actor_spawn",
        17 => "actor_join",
        18 => "actor_send",
        19 => "actor_recv",
        20 => "actor_poll",
        21 => "window_create",
        22 => "window_draw_frame",
        23 => "audio_open_output",
        24 => "audio_write_samples",
        25 => "audio_open_input",
        26 => "audio_read_samples",
        _ => "exit",
    }
}

/// Number of parameters of a host function that Plush code names directly
pub open spec fn spec_global_arity(i: nat) -> nat {
    if i == 0 { 0 }
    else if i == 1 { 0 }
    else if i == 2 { 1 }
    else if i == 3 { 2 }
    else if i == 4 { 1 }
    else if i == 5 { 1 }
    else if i == 6 { 0 }
    else if i == 7 { 1 }
    else if i == 8 { 1 }
    else if i == 9 { 2 }
    else if i == 10 { 1 }
    else if i == 11 { 1 }
    else if i == 12 { 0 }
    else if i == 13 { 0 }
    else if i == 14 { 0 }
    else if i == 15 { 1 }
    else if i == 16 { 1 }
    else if i == 17 { 1 }
    else if i == 18 { 2 }
    else if i == 19 { 0 }
    else if i == 20 { 0 }
    else if i == 21 { 4 }
    else if i == 22 { 2 }
    else if i == 23 { 2 }
    else if i == 24 { 2 }
    else if i == 25 { 2 }
    else if i == 26 { 4 }
    else { 1 }
}

/// Number of parameters of a host function that Plush code names directly
pub fn global_arity(i: usize) -> (r: usize)
    requires
        i < NUM_HOST_GLOBALS,
    ensures
        r == spec_global_arity(i as nat),
        r <= 4,
{
    match i {
        0 => 0,
        1 => 0,
        2 => 1,
        3 => 2,
        4 => 1,
        5 => 1,
        6 => 0,
        7 => 1,
        8 => 1,
        9 => 2,
        10 => 1,
        11 => 1,
        12 => 0,
        13 => 0,
        14 => 0,
        15 => 1,
        16 => 1,
        17 => 1,
        18 => 2,
        19 => 0,
        20 => 0,
        21 => 4,
        22 => 2,
        23 => 2,
        24 => 2,
        25 => 2,
        26 => 4,
        _ => 1,
    }
}

impl HostFnId {
    /// Look up a host function that Plush code can name directly.
    /// Methods are deliberately not reachable this way: they are found by
    /// the type they are defined on instead
    pub fn from_name(name: &str) -> (r: Option<HostFnId>)
        ensures
            r matches Some(id) ==> id.index() < NUM_HOST_GLOBALS && spec_global_name(id.index()) == name@
                && id.wf(),
            r is None ==> forall|i: nat| i < NUM_HOST_GLOBALS ==> spec_global_name(i) != name@,
    {
        let mut i: usize = 0;
        while i < NUM_HOST_GLOBALS
            invariant
                i <= NUM_HOST_GLOBALS,
                forall|j: nat| j < i ==> spec_global_name(j) != name@,
            decreases NUM_HOST_GLOBALS - i,
        {
            if crate::insns::str_eq(global_name(i), name) {
                return Some(HostFnId::from_index(i as u16));
            }
            i = i + 1;
        }
        None
    }
}

/// Number of arguments a host function that Plush code names directly
/// takes
pub open spec fn spec_global_num_params(i: nat) -> nat {
    if i == 0 { 0 }
    else if i == 1 { 0 }
    else if i == 2 { 1 }
    else if i == 3 { 2 }
    else if i == 4 { 1 }
    else if i == 5 { 1 }
    else if i == 6 { 0 }
    else if i == 7 { 1 }
    else if i == 8 { 1 }
    else if i == 9 { 2 }
    else if i == 10 { 1 }
    else if i == 11 { 1 }
    else if i == 12 { 0 }
    else if i == 13 { 0 }
    else if i == 14 { 0 }
    else if i == 15 { 1 }
    else if i == 16 { 1 }
    else if i == 17 { 1 }
    else if i == 18 { 2 }
    else if i == 19 { 0 }
    else if i == 20 { 0 }
    else if i == 21 { 4 }
    else if i == 22 { 2 }
    else if i == 23 { 2 }
    else if i == 24 { 2 }
    else if i == 25 { 2 }
    else if i == 26 { 4 }
    else { 1 }
}

/// Number of arguments a host function that Plush code names directly
/// takes
pub fn global_num_params(i: usize) -> (r: usize)
    requires
        i < NUM_HOST_GLOBALS,
    ensures
        r == spec_global_num_params(i as nat),
{
    match i {
        0 => 0,
        1 => 0,
        2 => 1,
        3 => 2,
        4 => 1,
        5 => 1,
        6 => 0,
        7 => 1,
        8 => 1,
        9 => 2,
        10 => 1,
        11 => 1,
        12 => 0,
        13 => 0,
        14 => 0,
        15 => 1,
        16 => 1,
        17 => 1,
        18 => 2,
        19 => 0,
        20 => 0,
        21 => 4,
        22 => 2,
        23 => 2,
        24 => 2,
        25 => 2,
        26 => 4,
        _ => 1,
    }
}

} // verus!
