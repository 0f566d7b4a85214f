//! The source that all firmware shares.

use vstd::prelude::*;

use crate::paths;

verus! {

pub const CARGO_STD: &'static str = r#"
        [package]
        name = "firmware"
        version = "0.1.0"
        edition = "2024"

        # HACK(drosen): This gets around errors due to this package being in a workspace
        [workspace]

        [dependencies]
        tensix-std = {path = ""#;

pub const CARGO_SHARED: &'static str = r#"/../../../tensix-std"}
        runtime-shared = {path = ""#;

pub const CARGO_DEFMT: &'static str = r#""}
        postcard = "1.1.1"
        "#;

pub const CARGO_RELOCATE: &'static str = r#"
        relocate = {path = ""#;

pub const CARGO_END: &'static str = r#""}
        "#;

pub const MAIN_PRELUDE: &'static str = r#"
    #![no_std]
    #![no_main]

    #[repr(align(64))]
    pub struct NocAligned<T>(T);

    impl<T> core::ops::Deref for NocAligned<T> {
        type Target = T;

        fn deref(&self) -> &<Self as core::ops::Deref>::Target {
            &self.0
        }
    }

    impl<T> core::ops::DerefMut for NocAligned<T> {
        fn deref_mut(&mut self) -> &mut <Self as core::ops::Deref>::Target {
            &mut self.0
        }
    }

    #[repr(transparent)]
    pub struct SyncUnsafeCell<T>(core::cell::UnsafeCell<T>);
    unsafe impl<T: Sync> Sync for SyncUnsafeCell<T> {}

    impl<T> SyncUnsafeCell<T> {
        pub const fn new(value: T) -> Self {
            SyncUnsafeCell(core::cell::UnsafeCell::new(value))
        }

        pub fn get(&self) -> *mut T {
            self.0.get()
        }

        pub fn read(&self) -> T {
            unsafe {
                self.get().read_volatile()
            }
        }

        pub fn write(&self, value: T) {
            unsafe {
                self.get().write_volatile(value);
            }
        }
    }

    #[repr(transparent)]
    pub struct SyncUnsafeNocCell<T>(NocAligned<SyncUnsafeCell<T>>);

    impl<T> SyncUnsafeNocCell<T> {
        pub const fn new(value: T) -> Self {
            SyncUnsafeNocCell(NocAligned(SyncUnsafeCell(core::cell::UnsafeCell::new(value))))
        }

        pub fn get(&self) -> *mut T {
            ((self.0).0).0.get()
        }

        pub fn read(&self) -> T {
            unsafe {
                self.get().read_volatile()
            }
        }

        pub fn write(&self, value: T) {
            unsafe {
                self.get().write_volatile(value);
            }
        }
    }

    type SYNC<T> = SyncUnsafeNocCell<T>;

    struct Tile {
        n0: (u8, u8),
        n1: (u8, u8)
    }

    impl From<u32> for Tile {
        fn from(value: u32) -> Self {
            Tile {
                n0: (value as u8, (value >> 8) as u8),
                n1: ((value >> 16) as u8, (value >> 24) as u8)
            }
        }
    }

    #[unsafe(no_mangle)]
    static JOB_LAUNCHED: SYNC<u32> = SYNC::new(0);

    #[unsafe(no_mangle)]
    static CORE_ID: SYNC<i32> = SYNC::new(-1);

    type SharedCoreLaunchData = Option<(u32, runtime_shared::CoreLaunchData)>;
    static NCRISC_JOB_POINTER: SyncUnsafeCell<SharedCoreLaunchData> = SyncUnsafeCell::new(None);
    static NCRISC_JOB_RESULT: SyncUnsafeCell<Option<()>> = SyncUnsafeCell::new(None);
    static TRISC0_JOB_POINTER: SyncUnsafeCell<SharedCoreLaunchData> = SyncUnsafeCell::new(None);
    static TRISC0_JOB_RESULT: SyncUnsafeCell<Option<()>> = SyncUnsafeCell::new(None);
    static TRISC1_JOB_POINTER: SyncUnsafeCell<SharedCoreLaunchData> = SyncUnsafeCell::new(None);
    static TRISC1_JOB_RESULT: SyncUnsafeCell<Option<()>> = SyncUnsafeCell::new(None);
    static TRISC2_JOB_POINTER: SyncUnsafeCell<SharedCoreLaunchData> = SyncUnsafeCell::new(None);
    static TRISC2_JOB_RESULT: SyncUnsafeCell<Option<()>> = SyncUnsafeCell::new(None);

    use tensix_std::entry;

    fn dyn_base() -> u32 {
        unsafe extern "Rust" {
            unsafe static mut __firmware_end: u8;
        }

        core::ptr::addr_of!(__firmware_end) as u32
    }

    "#;

pub const MAIN_BRISC: &'static str = r#"

    fn jump_to_stack(addr: u32, new_sp: u32) {
        unsafe {
            let mut old_sp: usize;

            core::arch::asm!(
                "mv {0}, sp",
                out(reg) old_sp,
            );

            let old_sp_ref = &mut old_sp;

            core::arch::asm!(
                "mv sp, {0}",
                in(reg) new_sp,
            );

            core::mem::transmute::<u32, fn()>(addr)();

            let old_sp = *old_sp_ref;

            core::arch::asm!(
                "mv {0}, sp",
                in(reg) old_sp,
            );
        }
    }

    fn jump_to(base_addr: u32, addr: u32, new_sp: Option<u32>) {
        if let Some(new_sp) = new_sp {
            jump_to_stack(base_addr + addr, new_sp)
        } else {
            unsafe {
                core::mem::transmute::<u32, fn()>(base_addr + addr)()
            }
        }
    }

    #[unsafe(no_mangle)]
    pub unsafe extern "C" fn memcpy(dest: *mut u8, src: *const u8, n: usize) -> *mut u8 {
        unsafe {
            let mut i = 0;
            while i < n {
                dest.add(i).write(src.add(i).read());
                i += 1;
            }
            dest
        }
    }

    #[unsafe(no_mangle)]
    pub unsafe extern "C" fn memset(dest: *mut u8, src: core::ffi::c_int, n: usize) -> *mut u8 {
        unsafe {
            let mut i = 0;
            while i < n {
                dest.add(i).write(src as u8);
                i += 1;
            }
            dest
        }
    }

    #[entry(brisc)]
    unsafe fn brisc_main() -> ! {
        tensix_std::reset::start_cores();

        unsafe {
            JOB_LAUNCHED.write(4);

            while CORE_ID.read() == -1 {}

            loop {
                "#;

pub const MAIN_END: &'static str = r#"

                NCRISC_JOB_RESULT.write(None);
                TRISC0_JOB_RESULT.write(None);
                TRISC1_JOB_RESULT.write(None);
                TRISC2_JOB_RESULT.write(None);

                // Zero BSS
                for addr in job.bss..job.ebss {
                    *((base_addr + addr) as *mut u32) = 0;
                }

                JOB_LAUNCHED.write(200);

                NCRISC_JOB_POINTER.write(Some((base_addr, job.ncrisc)));
                TRISC0_JOB_POINTER.write(Some((base_addr, job.trisc0)));
                TRISC1_JOB_POINTER.write(Some((base_addr, job.trisc1)));
                TRISC2_JOB_POINTER.write(Some((base_addr, job.trisc2)));

                JOB_LAUNCHED.write(201);

                jump_to(base_addr, job.brisc.entry, job.brisc.stack);

                JOB_LAUNCHED.write(202);

                loop {
                    if NCRISC_JOB_RESULT.read().is_none() {
                        JOB_LAUNCHED.write(203);
                        continue;
                    }

                    if TRISC0_JOB_RESULT.read().is_none() {
                        JOB_LAUNCHED.write(204);
                        continue;
                    }

                    if TRISC1_JOB_RESULT.read().is_none() {
                        JOB_LAUNCHED.write(205);
                        continue;
                    }

                    if TRISC2_JOB_RESULT.read().is_none() {
                        JOB_LAUNCHED.write(206);
                        continue;
                    }

                    break;
                }

                JOB_LAUNCHED.write(202);
            }
        }
    }

    #[entry(ncrisc)]
    unsafe fn ncrisc_main() -> ! {
        loop {
            if let Some((base, info)) = NCRISC_JOB_POINTER.read() {
                NCRISC_JOB_POINTER.write(None);
                jump_to(base, info.entry, info.stack);
                NCRISC_JOB_RESULT.write(Some(()));
            }
        }
    }

    #[entry(trisc0)]
    unsafe fn trisc0_main() -> ! {
        loop {
            if let Some((base, info)) = TRISC0_JOB_POINTER.read() {
                TRISC0_JOB_POINTER.write(None);
                jump_to(base, info.entry, info.stack);
                TRISC0_JOB_RESULT.write(Some(()));
            }
        }
    }

    #[entry(trisc1)]
    unsafe fn trisc1_main() -> ! {
        loop {
            if let Some((base, info)) = TRISC1_JOB_POINTER.read() {
                TRISC1_JOB_POINTER.write(None);
                jump_to(base, info.entry, info.stack);
                TRISC1_JOB_RESULT.write(Some(()));
            }
        }
    }

    #[entry(trisc2)]
    unsafe fn trisc2_main() -> ! {
        loop {
            if let Some((base, info)) = TRISC2_JOB_POINTER.read() {
                TRISC2_JOB_POINTER.write(None);
                jump_to(base, info.entry, info.stack);
                TRISC2_JOB_RESULT.write(Some(()));
            }
        }
    }
    "#;

/// Whether `located` is the crate of the relocations: next to the directory of the crate in
/// `manifest_dir`. Which separators stand in it is the platform's matter, and so is where an
/// extraordinary path leads.
pub open spec fn holds_relocations(manifest_dir: Seq<char>, located: Option<Seq<char>>) -> bool {
    &&& manifest_dir.len() == 0 || manifest_dir == seq!['/'] ==> located is None
    &&& forall|dir: Seq<char>, name: Seq<char>| #[trigger]
        paths::lies_in(manifest_dir, dir, name) && (dir.len() == 0 || dir == seq!['/'])
            ==> located is None
    &&& forall|dir: Seq<char>, name: Seq<char>, outer: Seq<char>, part: Seq<char>|
        #[trigger] paths::lies_in(manifest_dir, dir, name) && #[trigger] paths::lies_in(
            dir,
            outer,
            part,
        ) ==> located is Some && paths::unified(located->0) == paths::under(outer, "relocate"@)
}

/// Whether `located` is the crate that host and firmware share: next to the one in `manifest_dir`.
pub open spec fn holds_shared(manifest_dir: Seq<char>, located: Option<Seq<char>>) -> bool {
    paths::lies_beside(manifest_dir, "runtime-shared"@, located)
}

/// The directory of the crate that host and firmware share, next to the one of the crate in
/// `manifest_dir`. `None` where that is in no directory.
pub fn shared_path(manifest_dir: &str) -> (located: Option<String>)
    ensures
        holds_shared(manifest_dir@, paths::text_view(located)),
{
    paths::beside(manifest_dir, "runtime-shared")
}

/// The directory of the crate of the relocations, one directory up from the one of the crate in
/// `manifest_dir`. `None` where there is no such directory.
pub fn relocate_path(manifest_dir: &str) -> (located: Option<String>)
    ensures
        holds_relocations(manifest_dir@, paths::text_view(located)),
{
    match paths::parent_path(manifest_dir) {
        Some(parent) => {
            let located = paths::beside(parent.as_str(), "relocate");
            proof {
                reveal_strlit("relocate");
                assert(paths::relative_everywhere("relocate"@));
                assert(paths::unified("relocate"@) =~= "relocate"@);
            }
            located
        },
        None => None,
    }
}

/// The manifest of a firmware's crate. `manifest_dir` is the directory of this library's crate, and
/// the other two are the directories of the crates that it shares with the firmware.
pub open spec fn cargo_toml(
    enable_defmt: bool,
    manifest_dir: Seq<char>,
    shared_path: Seq<char>,
    relocate_path: Seq<char>,
) -> Seq<char> {
    CARGO_STD@ + manifest_dir + CARGO_SHARED@ + shared_path + CARGO_DEFMT@ + (if enable_defmt {
        "defmt = \"1.0.0\""@
    } else {
        ""@
    }) + CARGO_RELOCATE@ + relocate_path + CARGO_END@
}

/// The manifest of a firmware's crate.
pub fn write_cargo_toml(
    enable_defmt: bool,
    manifest_dir: &str,
    shared_path: &str,
    relocate_path: &str,
) -> (source: String)
    ensures
        source@ == cargo_toml(enable_defmt, manifest_dir@, shared_path@, relocate_path@),
{
    let mut source = CARGO_STD.to_string();
    source.append(manifest_dir);
    source.append(CARGO_SHARED);
    source.append(shared_path);
    source.append(CARGO_DEFMT);
    source.append(
        if enable_defmt {
            "defmt = \"1.0.0\""
        } else {
            ""
        },
    );
    source.append(CARGO_RELOCATE);
    source.append(relocate_path);
    source.append(CARGO_END);
    source
}

/// The source of a firmware: `global` are its own items, and `brisc` is how it comes by a job.
pub open spec fn main_source(global: Seq<char>, brisc: Seq<char>) -> Seq<char> {
    MAIN_PRELUDE@ + global + MAIN_BRISC@ + brisc + MAIN_END@
}

/// The source of a firmware.
pub fn write_main(global: &str, brisc: &str) -> (source: String)
    ensures
        source@ == main_source(global@, brisc@),
{
    let mut source = MAIN_PRELUDE.to_string();
    source.append(global);
    source.append(MAIN_BRISC);
    source.append(brisc);
    source.append(MAIN_END);
    source
}

} // verus!
