//! What the host and the firmware tell each other to launch a kernel.

use vstd::prelude::*;

verus! {

/// Info required to setup each core to execute the kernel workload.
#[derive(Clone, Copy, Debug, PartialEq, Eq)]
pub struct CoreLaunchData {
    /// Offset relative to where the workload is loaded to jump to in order to start executing.
    pub entry: u32,
    /// Address in the core address map to set the stack pointer.
    /// If it is None then the current stack will be used.
    pub stack: Option<u32>,
}

impl CoreLaunchData {
    pub fn cdefault() -> (data: Self)
        ensures
            data == (CoreLaunchData { entry: 0, stack: None }),
    {
        CoreLaunchData { entry: 0, stack: None }
    }
}

impl Default for CoreLaunchData {
    fn default() -> (data: Self)
        ensures
            data == (CoreLaunchData { entry: 0, stack: None }),
    {
        Self::cdefault()
    }
}

/// A core that is ready for a job: where it wants to be told about it, and where the job is to be
/// loaded.
#[derive(Clone, Copy, Debug, PartialEq, Eq)]
pub struct LaunchRequest {
    pub job_request_addr: u64,
    pub job_offset: u64,
}

impl Default for LaunchRequest {
    fn default() -> (request: Self)
        ensures
            request == (LaunchRequest { job_request_addr: 0, job_offset: 0 }),
    {
        LaunchRequest { job_request_addr: 0, job_offset: 0 }
    }
}

/// A job that the firmware pulls from DRAM.
#[derive(Clone, Copy, Debug, PartialEq, Eq)]
pub struct LaunchData {
    pub workload_bank: (u8, u8),
    pub workload_bank_offset: u64,
    pub workload_bank_size: u64,
    /// How much of the workload is the kernel; its relocations follow.
    pub kernel_size: u64,
    pub bss: u32,
    pub ebss: u32,
    pub brisc: CoreLaunchData,
    pub ncrisc: CoreLaunchData,
    pub trisc0: CoreLaunchData,
    pub trisc1: CoreLaunchData,
    pub trisc2: CoreLaunchData,
    pub data_bank: (u8, u8),
    pub data_bank_offset: u64,
    /// Used to indicate that the launch data has been written into the core.
    /// Any non-zero value indicates presence of the data, will be written back to zero once
    /// the core has accepted the job.
    pub flag: u32,
}

/// No job: everything is zero, and no core has a stack of its own.
pub open spec fn no_launch_data() -> LaunchData {
    let core = CoreLaunchData { entry: 0, stack: None };
    LaunchData {
        workload_bank: (0, 0),
        workload_bank_offset: 0,
        workload_bank_size: 0,
        kernel_size: 0,
        bss: 0,
        ebss: 0,
        brisc: core,
        ncrisc: core,
        trisc0: core,
        trisc1: core,
        trisc2: core,
        data_bank: (0, 0),
        data_bank_offset: 0,
        flag: 0,
    }
}

impl LaunchData {
    pub fn cdefault() -> (data: Self)
        ensures
            data == no_launch_data(),
    {
        LaunchData {
            workload_bank: (0, 0),
            workload_bank_offset: 0,
            workload_bank_size: 0,
            kernel_size: 0,
            bss: 0,
            ebss: 0,
            brisc: CoreLaunchData::cdefault(),
            ncrisc: CoreLaunchData::cdefault(),
            trisc0: CoreLaunchData::cdefault(),
            trisc1: CoreLaunchData::cdefault(),
            trisc2: CoreLaunchData::cdefault(),
            data_bank: (0, 0),
            data_bank_offset: 0,
            flag: 0,
        }
    }
}

impl Default for LaunchData {
    fn default() -> (data: Self)
        ensures
            data == no_launch_data(),
    {
        Self::cdefault()
    }
}

/// A job that is pushed to the firmware.
#[derive(Clone, Copy, Debug, PartialEq, Eq)]
pub struct CLaunchData {
    pub bss: u32,
    pub ebss: u32,
    pub brisc: CoreLaunchData,
    pub ncrisc: CoreLaunchData,
    pub trisc0: CoreLaunchData,
    pub trisc1: CoreLaunchData,
    pub trisc2: CoreLaunchData,
    /// Used to indicate that the launch data has been written into the core.
    /// Any non-zero value indicates presence of the data, will be written back to zero once
    /// the core has accepted the job.
    pub flag: u32,
}

/// No job: everything is zero, and no core has a stack of its own.
pub open spec fn no_c_launch_data() -> CLaunchData {
    let core = CoreLaunchData { entry: 0, stack: None };
    CLaunchData {
        bss: 0,
        ebss: 0,
        brisc: core,
        ncrisc: core,
        trisc0: core,
        trisc1: core,
        trisc2: core,
        flag: 0,
    }
}

impl CLaunchData {
    pub fn cdefault() -> (data: Self)
        ensures
            data == no_c_launch_data(),
    {
        CLaunchData {
            bss: 0,
            ebss: 0,
            brisc: CoreLaunchData::cdefault(),
            ncrisc: CoreLaunchData::cdefault(),
            trisc0: CoreLaunchData::cdefault(),
            trisc1: CoreLaunchData::cdefault(),
            trisc2: CoreLaunchData::cdefault(),
            flag: 0,
        }
    }
}

impl Default for CLaunchData {
    fn default() -> (data: Self)
        ensures
            data == no_c_launch_data(),
    {
        Self::cdefault()
    }
}

} // verus!
