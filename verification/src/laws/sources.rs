//! The sources of kernels and firmware.

use vstd::prelude::*;

use crate::chip::Tile;
use crate::firmware::common_gen;
use crate::firmware::dram_pull;
use crate::laws::Riscv;
use crate::laws::texts;
use crate::text;
use crate::workload;
use crate::workload::WorkloadBuilder;

verus! {

/// The code of a workload for one core.
pub open spec fn code_of(builder: WorkloadBuilder, core: Riscv) -> Seq<char> {
    match core {
        Riscv::Brisc => builder.brisc@,
        Riscv::Ncrisc => builder.ncrisc@,
        Riscv::Trisc0 => builder.trisc0@,
        Riscv::Trisc1 => builder.trisc1@,
        Riscv::Trisc2 => builder.trisc2@,
    }
}

/// The start of the function that a core runs.
pub open spec fn function_head(core: Riscv) -> Seq<char> {
    "#[unsafe(no_mangle)]\n        pub unsafe extern \"C\" fn "@ + core.lower()
        + "_kmain() {\n            unsafe {\n                "@
}

/// The function that a core runs, with its code.
pub open spec fn function_text(core: Riscv, code: Seq<char>) -> Seq<char> {
    function_head(core) + code + "\n            }\n        }\n"@
}

/// The text that comes before a core's code.
spec fn lead(core: Riscv) -> Seq<char> {
    match core {
        Riscv::Brisc => workload::LIB_BRISC@,
        Riscv::Ncrisc => workload::LIB_NCRISC@,
        Riscv::Trisc0 => workload::LIB_TRISC0@,
        Riscv::Trisc1 => workload::LIB_TRISC1@,
        Riscv::Trisc2 => workload::LIB_TRISC2@,
    }
}

proof fn lemma_lead_brisc()
    ensures
        lead(Riscv::Brisc) == lead(Riscv::Brisc).take(10) + function_head(Riscv::Brisc),
{
    reveal_strlit("#[unsafe(no_mangle)]\n        pub unsafe extern \"C\" fn ");
    reveal_strlit("brisc");
    reveal_strlit("_kmain() {\n            unsafe {\n                ");
    reveal_strlit(r#"

        #[unsafe(no_mangle)]
        pub unsafe extern "C" fn brisc_kmain() {
            unsafe {
                "#);
    assert(lead(Riscv::Brisc) =~= lead(Riscv::Brisc).take(10) + function_head(Riscv::Brisc));
}

proof fn lemma_lead_ncrisc()
    ensures
        lead(Riscv::Ncrisc) == lead(Riscv::Ncrisc).take(34) + function_head(Riscv::Ncrisc),
        lead(Riscv::Ncrisc) == "\n            }\n        }\n"@ + lead(Riscv::Ncrisc).skip(25),
{
    reveal_strlit("#[unsafe(no_mangle)]\n        pub unsafe extern \"C\" fn ");
    reveal_strlit("ncrisc");
    reveal_strlit("_kmain() {\n            unsafe {\n                ");
    reveal_strlit(r#"
            }
        }

        #[unsafe(no_mangle)]
        pub unsafe extern "C" fn ncrisc_kmain() {
            unsafe {
                "#);
    assert(lead(Riscv::Ncrisc) =~= lead(Riscv::Ncrisc).take(34) + function_head(Riscv::Ncrisc));
    reveal_strlit("\n            }\n        }\n");
    assert(lead(Riscv::Ncrisc) =~= "\n            }\n        }\n"@ + lead(Riscv::Ncrisc).skip(25));
}

proof fn lemma_lead_trisc0()
    ensures
        lead(Riscv::Trisc0) == lead(Riscv::Trisc0).take(34) + function_head(Riscv::Trisc0),
        lead(Riscv::Trisc0) == "\n            }\n        }\n"@ + lead(Riscv::Trisc0).skip(25),
{
    reveal_strlit("#[unsafe(no_mangle)]\n        pub unsafe extern \"C\" fn ");
    reveal_strlit("trisc0");
    reveal_strlit("_kmain() {\n            unsafe {\n                ");
    reveal_strlit(r#"
            }
        }

        #[unsafe(no_mangle)]
        pub unsafe extern "C" fn trisc0_kmain() {
            unsafe {
                "#);
    assert(lead(Riscv::Trisc0) =~= lead(Riscv::Trisc0).take(34) + function_head(Riscv::Trisc0));
    reveal_strlit("\n            }\n        }\n");
    assert(lead(Riscv::Trisc0) =~= "\n            }\n        }\n"@ + lead(Riscv::Trisc0).skip(25));
}

proof fn lemma_lead_trisc1()
    ensures
        lead(Riscv::Trisc1) == lead(Riscv::Trisc1).take(34) + function_head(Riscv::Trisc1),
        lead(Riscv::Trisc1) == "\n            }\n        }\n"@ + lead(Riscv::Trisc1).skip(25),
{
    reveal_strlit("#[unsafe(no_mangle)]\n        pub unsafe extern \"C\" fn ");
    reveal_strlit("trisc1");
    reveal_strlit("_kmain() {\n            unsafe {\n                ");
    reveal_strlit(r#"
            }
        }

        #[unsafe(no_mangle)]
        pub unsafe extern "C" fn trisc1_kmain() {
            unsafe {
                "#);
    assert(lead(Riscv::Trisc1) =~= lead(Riscv::Trisc1).take(34) + function_head(Riscv::Trisc1));
    reveal_strlit("\n            }\n        }\n");
    assert(lead(Riscv::Trisc1) =~= "\n            }\n        }\n"@ + lead(Riscv::Trisc1).skip(25));
}

proof fn lemma_lead_trisc2()
    ensures
        lead(Riscv::Trisc2) == lead(Riscv::Trisc2).take(34) + function_head(Riscv::Trisc2),
        lead(Riscv::Trisc2) == "\n            }\n        }\n"@ + lead(Riscv::Trisc2).skip(25),
{
    reveal_strlit("#[unsafe(no_mangle)]\n        pub unsafe extern \"C\" fn ");
    reveal_strlit("trisc2");
    reveal_strlit("_kmain() {\n            unsafe {\n                ");
    reveal_strlit(r#"
            }
        }

        #[unsafe(no_mangle)]
        pub unsafe extern "C" fn trisc2_kmain() {
            unsafe {
                "#);
    assert(lead(Riscv::Trisc2) =~= lead(Riscv::Trisc2).take(34) + function_head(Riscv::Trisc2));
    reveal_strlit("\n            }\n        }\n");
    assert(lead(Riscv::Trisc2) =~= "\n            }\n        }\n"@ + lead(Riscv::Trisc2).skip(25));
}

proof fn lemma_lib_end()
    ensures
        workload::LIB_END@ == "\n            }\n        }\n"@ + workload::LIB_END@.skip(25),
{
    reveal_strlit("\n            }\n        }\n");
    reveal_strlit(r#"
            }
        }
        "#);
    assert(workload::LIB_END@ =~= "\n            }\n        }\n"@ + workload::LIB_END@.skip(25));
}

/// A function stands where the text before its code ends with its head, and the text behind it closes
/// it.
proof fn lemma_function(
    before: Seq<char>,
    lead: Seq<char>,
    code: Seq<char>,
    behind: Seq<char>,
    core: Riscv,
    cut: int,
)
    requires
        lead == lead.take(cut) + function_head(core),
        behind == "\n            }\n        }\n"@ + behind.skip(25),
    ensures
        texts::holds(before + lead + code + behind, function_text(core, code)),
{
    let close = "\n            }\n        }\n"@;
    assert(before + lead + code + behind =~= (before + lead.take(cut)) + (function_head(core) + code
        + close) + behind.skip(25));
}

/// What stands behind a core's code.
spec fn behind(builder: WorkloadBuilder, core: Riscv) -> Seq<char>
    decreases
            match core {
                Riscv::Brisc => 4int,
                Riscv::Ncrisc => 3,
                Riscv::Trisc0 => 2,
                Riscv::Trisc1 => 1,
                Riscv::Trisc2 => 0,
            },
{
    match core {
        Riscv::Brisc => lead(Riscv::Ncrisc) + builder.ncrisc@ + behind(builder, Riscv::Ncrisc),
        Riscv::Ncrisc => lead(Riscv::Trisc0) + builder.trisc0@ + behind(builder, Riscv::Trisc0),
        Riscv::Trisc0 => lead(Riscv::Trisc1) + builder.trisc1@ + behind(builder, Riscv::Trisc1),
        Riscv::Trisc1 => lead(Riscv::Trisc2) + builder.trisc2@ + behind(builder, Riscv::Trisc2),
        Riscv::Trisc2 => workload::LIB_END@,
    }
}

/// What stands before a core's function.
spec fn before(builder: WorkloadBuilder, core: Riscv) -> Seq<char>
    decreases
            match core {
                Riscv::Brisc => 0int,
                Riscv::Ncrisc => 1,
                Riscv::Trisc0 => 2,
                Riscv::Trisc1 => 3,
                Riscv::Trisc2 => 4,
            },
{
    match core {
        Riscv::Brisc => workload::LIB_PRELUDE@ + builder.global@,
        Riscv::Ncrisc => before(builder, Riscv::Brisc) + lead(Riscv::Brisc) + builder.brisc@,
        Riscv::Trisc0 => before(builder, Riscv::Ncrisc) + lead(Riscv::Ncrisc) + builder.ncrisc@,
        Riscv::Trisc1 => before(builder, Riscv::Trisc0) + lead(Riscv::Trisc0) + builder.trisc0@,
        Riscv::Trisc2 => before(builder, Riscv::Trisc1) + lead(Riscv::Trisc1) + builder.trisc1@,
    }
}

proof fn lemma_tail(a: Seq<char>, b: Seq<char>, c: Seq<char>, d: Seq<char>)
    ensures
        a + b + c + d == a + (b + c + d),
{
    assert(a + b + c + d =~= a + (b + c + d));
}

proof fn lemma_around(builder: WorkloadBuilder)
    ensures
        forall|core: Riscv|
            workload::lib_source(builder) == #[trigger] before(builder, core) + lead(core) + code_of(
                builder,
                core,
            ) + behind(builder, core),
{
    reveal_with_fuel(before, 5);
    reveal_with_fuel(behind, 5);
    lemma_tail(
        before(builder, Riscv::Trisc2),
        lead(Riscv::Trisc2),
        builder.trisc2@,
        behind(builder, Riscv::Trisc2),
    );
    lemma_tail(
        before(builder, Riscv::Trisc1),
        lead(Riscv::Trisc1),
        builder.trisc1@,
        behind(builder, Riscv::Trisc1),
    );
    lemma_tail(
        before(builder, Riscv::Trisc0),
        lead(Riscv::Trisc0),
        builder.trisc0@,
        behind(builder, Riscv::Trisc0),
    );
    lemma_tail(
        before(builder, Riscv::Ncrisc),
        lead(Riscv::Ncrisc),
        builder.ncrisc@,
        behind(builder, Riscv::Ncrisc),
    );
}

proof fn lemma_lead(core: Riscv)
    ensures
        exists|cut: int| lead(core) == #[trigger] lead(core).take(cut) + function_head(core),
{
    lemma_lead_brisc();
    lemma_lead_ncrisc();
    lemma_lead_trisc0();
    lemma_lead_trisc1();
    lemma_lead_trisc2();
    assert(lead(core) == lead(core).take(10) + function_head(core) || lead(core) == lead(
        core,
    ).take(34) + function_head(core));
}

proof fn lemma_behind(builder: WorkloadBuilder, core: Riscv)
    ensures
        behind(builder, core) == "\n            }\n        }\n"@ + behind(builder, core).skip(25),
{
    match core {
        Riscv::Brisc => {
            lemma_lead_ncrisc();
            lemma_closes(
                lead(Riscv::Ncrisc),
                builder.ncrisc@,
                behind(builder, Riscv::Ncrisc),
            );
        },
        Riscv::Ncrisc => {
            lemma_lead_trisc0();
            lemma_closes(
                lead(Riscv::Trisc0),
                builder.trisc0@,
                behind(builder, Riscv::Trisc0),
            );
        },
        Riscv::Trisc0 => {
            lemma_lead_trisc1();
            lemma_closes(
                lead(Riscv::Trisc1),
                builder.trisc1@,
                behind(builder, Riscv::Trisc1),
            );
        },
        Riscv::Trisc1 => {
            lemma_lead_trisc2();
            lemma_closes(
                lead(Riscv::Trisc2),
                builder.trisc2@,
                behind(builder, Riscv::Trisc2),
            );
        },
        Riscv::Trisc2 => {
            lemma_lib_end();
        },
    }
}

/// The crate of a workload has a function for each core, under the name by which the firmware calls
/// it, whose body is the workload's code for that core.
pub proof fn every_core_runs_its_own_code(builder: WorkloadBuilder, core: Riscv)
    ensures
        texts::holds(workload::lib_source(builder), function_text(core, code_of(builder, core))),
{
    lemma_around(builder);
    lemma_lead(core);
    lemma_behind(builder, core);
    let cut = choose|cut: int| lead(core) == #[trigger] lead(core).take(cut) + function_head(core);
    lemma_function(
        before(builder, core),
        lead(core),
        code_of(builder, core),
        behind(builder, core),
        core,
        cut,
    );
}

/// What starts with closing braces still does when more is written behind it.
proof fn lemma_closes(lead: Seq<char>, code: Seq<char>, behind: Seq<char>)
    requires
        lead == "\n            }\n        }\n"@ + lead.skip(25),
    ensures
        lead + code + behind == "\n            }\n        }\n"@ + (lead + code + behind).skip(25),
{
    reveal_strlit("\n            }\n        }\n");
    let close = "\n            }\n        }\n"@;
    let whole = lead + code + behind;
    assert(whole.take(25) =~= lead.take(25));
    assert(lead.take(25) =~= close);
    assert(whole =~= whole.take(25) + whole.skip(25));
}

/// The items of a workload stand in its crate before the functions of the cores: the text up to them
/// is the same for all workloads, and the functions are in what follows.
pub proof fn the_items_of_a_workload_come_first(builder: WorkloadBuilder, other: WorkloadBuilder) -> (
    parts: (Seq<char>, Seq<char>, Seq<char>))
    ensures
        workload::lib_source(builder) == parts.0 + builder.global@ + parts.1,
        workload::lib_source(other) == parts.0 + other.global@ + parts.2,
        builder.brisc@ == other.brisc@ && builder.ncrisc@ == other.ncrisc@ && builder.trisc0@
            == other.trisc0@ && builder.trisc1@ == other.trisc1@ && builder.trisc2@
            == other.trisc2@ ==> parts.1 == parts.2,
        parts.1.len() - parts.2.len() == (builder.brisc@.len() + builder.ncrisc@.len()
            + builder.trisc0@.len() + builder.trisc1@.len() + builder.trisc2@.len()) - (
        other.brisc@.len() + other.ncrisc@.len() + other.trisc0@.len() + other.trisc1@.len()
            + other.trisc2@.len()),
{
    let rest = functions(builder);
    let other_rest = functions(other);
    assert(workload::lib_source(builder) =~= workload::LIB_PRELUDE@ + builder.global@ + rest);
    assert(workload::lib_source(other) =~= workload::LIB_PRELUDE@ + other.global@ + other_rest);
    (workload::LIB_PRELUDE@, rest, other_rest)
}

/// The functions of all cores.
spec fn functions(builder: WorkloadBuilder) -> Seq<char> {
    workload::LIB_BRISC@ + builder.brisc@ + workload::LIB_NCRISC@ + builder.ncrisc@
        + workload::LIB_TRISC0@ + builder.trisc0@ + workload::LIB_TRISC1@ + builder.trisc1@
        + workload::LIB_TRISC2@ + builder.trisc2@ + workload::LIB_END@
}

/// The manifest of a workload's crate names the crate that it is built on, found from the directory
/// of this library's crate.
pub proof fn a_workload_is_built_on_the_device_library(manifest_dir: Seq<char>)
    ensures
        texts::holds(
            workload::cargo_toml(manifest_dir),
            "tensix-std = {path = \""@ + manifest_dir + "/../../../tensix-std\"}\n"@,
        ),
{
    reveal_strlit("tensix-std = {path = \"");
    reveal_strlit("/../../../tensix-std\"}\n");
    reveal_strlit(r#"
        [package]
        name = "kernel"
        version = "0.1.0"
        edition = "2024"

        # HACK(drosen): This gets around errors due to this package being in a workspace
        [workspace]

        [lib]
        crate-type = ["cdylib"]

        [dependencies]
        tensix-std = {path = ""#);
    reveal_strlit(r#"/../../../tensix-std"}
        "#);
    let head = workload::CARGO_HEAD@.take(workload::CARGO_HEAD@.len() - 22);
    let tail = workload::CARGO_TAIL@.skip(23);
    assert(workload::CARGO_HEAD@ =~= head + "tensix-std = {path = \""@);
    assert(workload::CARGO_TAIL@ =~= "/../../../tensix-std\"}\n"@ + tail);
    assert(workload::cargo_toml(manifest_dir) =~= head + ("tensix-std = {path = \""@ + manifest_dir
        + "/../../../tensix-std\"}\n"@) + tail);
}

/// A line of a manifest that says where a crate is.
pub open spec fn dependency(name: Seq<char>, path: Seq<char>) -> Seq<char> {
    name + " = {path = \""@ + path + "\"}\n"@
}

proof fn lemma_firmware_head()
    ensures
        common_gen::CARGO_STD@ == common_gen::CARGO_STD@.take(common_gen::CARGO_STD@.len() - 22)
            + "tensix-std = {path = \""@,
{
    reveal_strlit("tensix-std = {path = \"");
    reveal_strlit(r#"
        [package]
        name = "firmware"
        version = "0.1.0"
        edition = "2024"

        # HACK(drosen): This gets around errors due to this package being in a workspace
        [workspace]

        [dependencies]
        tensix-std = {path = ""#);
    assert(common_gen::CARGO_STD@ =~= common_gen::CARGO_STD@.take(
        common_gen::CARGO_STD@.len() - 22,
    ) + "tensix-std = {path = \""@);
}

proof fn lemma_manifest_parts()
    ensures
        common_gen::CARGO_SHARED@ == "/../../../tensix-std\"}\n"@ + common_gen::CARGO_SHARED@.skip(
            23,
        ),
        common_gen::CARGO_SHARED@ == common_gen::CARGO_SHARED@.take(31) + (
        "runtime-shared"@ + " = {path = \""@),
        common_gen::CARGO_DEFMT@ == "\"}\n"@ + common_gen::CARGO_DEFMT@.skip(3),
        common_gen::CARGO_RELOCATE@ == common_gen::CARGO_RELOCATE@.take(9) + ("relocate"@
            + " = {path = \""@),
        common_gen::CARGO_END@ == "\"}\n"@ + common_gen::CARGO_END@.skip(3),
        "tensix-std = {path = \""@ == "tensix-std"@ + " = {path = \""@,
        "/../../../tensix-std\"}\n"@ == "/../../../tensix-std"@ + "\"}\n"@,
{
    reveal_strlit("tensix-std = {path = \"");
    reveal_strlit("/../../../tensix-std\"}\n");
    reveal_strlit("/../../../tensix-std");
    reveal_strlit("tensix-std");
    reveal_strlit(" = {path = \"");
    reveal_strlit("runtime-shared");
    reveal_strlit("relocate");
    reveal_strlit("\"}\n");
    reveal_strlit(r#"/../../../tensix-std"}
        runtime-shared = {path = ""#);
    reveal_strlit(r#""}
        postcard = "1.1.1"
        "#);
    reveal_strlit(r#"
        relocate = {path = ""#);
    reveal_strlit(r#""}
        "#);
    assert(common_gen::CARGO_SHARED@ =~= "/../../../tensix-std\"}\n"@
        + common_gen::CARGO_SHARED@.skip(23));
    assert(common_gen::CARGO_SHARED@ =~= common_gen::CARGO_SHARED@.take(31) + ("runtime-shared"@
        + " = {path = \""@));
    assert(common_gen::CARGO_DEFMT@ =~= "\"}\n"@ + common_gen::CARGO_DEFMT@.skip(3));
    assert(common_gen::CARGO_RELOCATE@ =~= common_gen::CARGO_RELOCATE@.take(9) + ("relocate"@
        + " = {path = \""@));
    assert(common_gen::CARGO_END@ =~= "\"}\n"@ + common_gen::CARGO_END@.skip(3));
    assert("tensix-std = {path = \""@ =~= "tensix-std"@ + " = {path = \""@);
    assert("/../../../tensix-std\"}\n"@ =~= "/../../../tensix-std"@ + "\"}\n"@);
}

/// A line stands in a text that is put together around its path.
proof fn lemma_line(
    before: Seq<char>,
    lead: Seq<char>,
    cut: int,
    name: Seq<char>,
    path: Seq<char>,
    follow: Seq<char>,
    behind: Seq<char>,
)
    requires
        lead == lead.take(cut) + (name + " = {path = \""@),
        follow == "\"}\n"@ + follow.skip(3),
    ensures
        texts::holds(before + lead + path + follow + behind, dependency(name, path)),
{
    assert(before + lead + path + follow + behind =~= (before + lead.take(cut)) + (name
        + " = {path = \""@ + path + "\"}\n"@) + (follow.skip(3) + behind));
}

/// The manifest of a firmware names the crates that it is built on, each with its own directory.
pub proof fn a_firmware_is_built_on_three_crates(
    enable_defmt: bool,
    manifest_dir: Seq<char>,
    shared_path: Seq<char>,
    relocate_path: Seq<char>,
)
    ensures
        ({
            let manifest = common_gen::cargo_toml(
                enable_defmt,
                manifest_dir,
                shared_path,
                relocate_path,
            );
            &&& texts::holds(
                manifest,
                dependency("tensix-std"@, manifest_dir + "/../../../tensix-std"@),
            )
            &&& texts::holds(manifest, dependency("runtime-shared"@, shared_path))
            &&& texts::holds(manifest, dependency("relocate"@, relocate_path))
        }),
{
    let manifest = common_gen::cargo_toml(enable_defmt, manifest_dir, shared_path, relocate_path);
    let log = if enable_defmt {
        "defmt = \"1.0.0\""@
    } else {
        ""@
    };
    let std = common_gen::CARGO_STD@;
    let shared = common_gen::CARGO_SHARED@;
    let defmt = common_gen::CARGO_DEFMT@;
    let relocate = common_gen::CARGO_RELOCATE@;
    let end = common_gen::CARGO_END@;
    lemma_firmware_head();
    lemma_manifest_parts();
    lemma_std_line(std, manifest_dir, shared, shared_path + defmt + log + relocate + relocate_path
        + end);
    lemma_line(
        std + manifest_dir,
        shared,
        31,
        "runtime-shared"@,
        shared_path,
        defmt,
        log + relocate + relocate_path + end,
    );
    lemma_line(
        std + manifest_dir + shared + shared_path + defmt + log,
        relocate,
        9,
        "relocate"@,
        relocate_path,
        end,
        seq![],
    );
    lemma_behind_third(std, manifest_dir, shared, shared_path, defmt, log, relocate, relocate_path, end);
    lemma_behind_fifth(std + manifest_dir + shared + shared_path + defmt, log, relocate, relocate_path, end);
    lemma_nothing_behind(manifest);
}

proof fn lemma_behind_third(
    a: Seq<char>,
    b: Seq<char>,
    c: Seq<char>,
    d: Seq<char>,
    e: Seq<char>,
    f: Seq<char>,
    g: Seq<char>,
    h: Seq<char>,
    i: Seq<char>,
)
    ensures
        a + b + c + d + e + f + g + h + i == a + b + c + (d + e + f + g + h + i),
{
    assert(a + b + c + d + e + f + g + h + i =~= a + b + c + (d + e + f + g + h + i));
}

proof fn lemma_behind_fifth(
    a: Seq<char>,
    b: Seq<char>,
    c: Seq<char>,
    d: Seq<char>,
    e: Seq<char>,
)
    ensures
        a + b + c + d + e == a + (b + c + d + e),
{
    assert(a + b + c + d + e =~= a + (b + c + d + e));
}

proof fn lemma_nothing_behind(text: Seq<char>)
    ensures
        text + seq![] == text,
{
    assert(text + seq![] =~= text);
}

proof fn lemma_std_line(
    std: Seq<char>,
    manifest_dir: Seq<char>,
    shared: Seq<char>,
    behind: Seq<char>,
)
    requires
        std == std.take(std.len() - 22) + "tensix-std = {path = \""@,
        shared == "/../../../tensix-std\"}\n"@ + shared.skip(23),
        "tensix-std = {path = \""@ == "tensix-std"@ + " = {path = \""@,
        "/../../../tensix-std\"}\n"@ == "/../../../tensix-std"@ + "\"}\n"@,
    ensures
        texts::holds(
            std + manifest_dir + shared + behind,
            dependency("tensix-std"@, manifest_dir + "/../../../tensix-std"@),
        ),
{
    let head = std.take(std.len() - 22);
    let tail = shared.skip(23);
    let line = dependency("tensix-std"@, manifest_dir + "/../../../tensix-std"@);
    assert(line =~= "tensix-std = {path = \""@ + manifest_dir + "/../../../tensix-std\"}\n"@);
    assert(std + manifest_dir + shared + behind =~= head + line + (tail + behind));
}

/// A firmware that logs is built on one crate more, and its manifest is otherwise that of one that
/// does not.
pub proof fn logging_takes_one_crate_more(
    manifest_dir: Seq<char>,
    shared_path: Seq<char>,
    relocate_path: Seq<char>,
) -> (parts: (Seq<char>, Seq<char>))
    ensures
        common_gen::cargo_toml(true, manifest_dir, shared_path, relocate_path) == parts.0
            + "defmt = \"1.0.0\""@ + parts.1,
        common_gen::cargo_toml(false, manifest_dir, shared_path, relocate_path) == parts.0
            + parts.1,
{
    let before = common_gen::CARGO_STD@ + manifest_dir + common_gen::CARGO_SHARED@ + shared_path
        + common_gen::CARGO_DEFMT@;
    let behind = common_gen::CARGO_RELOCATE@ + relocate_path + common_gen::CARGO_END@;
    reveal_strlit("");
    assert(common_gen::cargo_toml(true, manifest_dir, shared_path, relocate_path) =~= before
        + "defmt = \"1.0.0\""@ + behind);
    assert(common_gen::cargo_toml(false, manifest_dir, shared_path, relocate_path) =~= before
        + behind);
    (before, behind)
}

/// The sources of two firmwares differ in their own items, and behind these in how their BRISC comes
/// by a job, and in nothing else.
pub proof fn firmwares_differ_in_items_and_jobs(
    global: Seq<char>,
    brisc: Seq<char>,
    other_global: Seq<char>,
    other_brisc: Seq<char>,
) -> (parts: (Seq<char>, Seq<char>))
    ensures
        common_gen::main_source(global, brisc) == parts.0 + global + common_gen::MAIN_BRISC@ + brisc
            + parts.1,
        common_gen::main_source(other_global, other_brisc) == parts.0 + other_global
            + common_gen::MAIN_BRISC@ + other_brisc + parts.1,
{
    (common_gen::MAIN_PRELUDE@, common_gen::MAIN_END@)
}

/// A firmware that pulls jobs asks at the address and at the tile that it was given, each core at its
/// own place.
pub proof fn jobs_are_asked_for_where_the_server_is(job_server: Tile, addr: u64)
    ensures
        texts::holds(
            dram_pull::pull_global(job_server, addr),
            text::hex(addr as int)
                + " + (((LAUNCH_REQUEST_SIZE as u64 + 63) & !63) * (CORE_ID.read() as u64)),\n                        x_end: "@
                + text::decimal(job_server.addr.n0.0 as int)
                + ",\n                        y_end: "@ + text::decimal(
                job_server.addr.n0.1 as int,
            ),
        ),
{
    let x = " + (((LAUNCH_REQUEST_SIZE as u64 + 63) & !63) * (CORE_ID.read() as u64)),\n                        x_end: "@;
    let y = ",\n                        y_end: "@;
    let (x_digits, y_digits) = (
        text::decimal(job_server.addr.n0.0 as int),
        text::decimal(job_server.addr.n0.1 as int),
    );
    let hex = text::hex(addr as int);
    lemma_pull_parts();
    assert(dram_pull::pull_global(job_server, addr) =~= dram_pull::PULL_REQUEST@ + (hex + x
        + x_digits + y + y_digits) + dram_pull::PULL_REST@);
}

proof fn lemma_pull_parts()
    ensures
        dram_pull::PULL_X@
            == " + (((LAUNCH_REQUEST_SIZE as u64 + 63) & !63) * (CORE_ID.read() as u64)),\n                        x_end: "@,
        dram_pull::PULL_Y@ == ",\n                        y_end: "@,
{
    reveal_strlit(" + (((LAUNCH_REQUEST_SIZE as u64 + 63) & !63) * (CORE_ID.read() as u64)),\n                        x_end: ");
    reveal_strlit(r#" + (((LAUNCH_REQUEST_SIZE as u64 + 63) & !63) * (CORE_ID.read() as u64)),
                        x_end: "#);
    reveal_strlit(",\n                        y_end: ");
    reveal_strlit(r#",
                        y_end: "#);
    assert(dram_pull::PULL_X@
        =~= " + (((LAUNCH_REQUEST_SIZE as u64 + 63) & !63) * (CORE_ID.read() as u64)),\n                        x_end: "@);
    assert(dram_pull::PULL_Y@ =~= ",\n                        y_end: "@);
}

/// Joined lines have a line break between every two that follow each other: joining two lists of
/// lines is joining what each joins to.
pub proof fn lines_are_joined_by_line_breaks(first: Seq<Seq<char>>, second: Seq<Seq<char>>)
    requires
        first.len() > 0,
        second.len() > 0,
    ensures
        workload::join_lines(first + second) == workload::join_lines(first).push('\n')
            + workload::join_lines(second),
    decreases second.len(),
{
    reveal_strlit("\n");
    let all = first + second;
    let rest = second.drop_last();
    assert(all.drop_last() =~= first + rest);
    assert(all.last() == second.last());
    if rest.len() == 0 {
        assert(first + rest =~= first);
        assert(workload::join_lines(all) =~= workload::join_lines(first).push('\n')
            + workload::join_lines(second));
    } else {
        lines_are_joined_by_line_breaks(first, rest);
        assert(workload::join_lines(all) =~= workload::join_lines(first).push('\n')
            + workload::join_lines(second));
    }
}

/// One line stays as it is, and no line gives no text.
pub proof fn one_line_stays_as_it_is(line: Seq<char>)
    ensures
        workload::join_lines(seq![line]) == line,
        workload::join_lines(seq![]).len() == 0,
{
    reveal_strlit("");
}

/// A file is put in the place of the one at its path, or behind all others, and the others stay where
/// they are.
pub proof fn a_file_takes_the_place_of_the_one_at_its_path(
    files: Seq<(Seq<char>, Seq<char>)>,
    path: Seq<char>,
    text: Seq<char>,
    place: int,
)
    requires
        0 <= place <= files.len(),
        forall|i: int| 0 <= i < place ==> (#[trigger] files[i]).0 != path,
        place < files.len() ==> files[place].0 == path,
    ensures
        ({
            let after = workload::with_file(files, path, text);
            &&& after.len() == if place == files.len() {
                files.len() + 1
            } else {
                files.len()
            }
            &&& after[place] == (path, text)
            &&& forall|i: int|
                0 <= i < files.len() && i != place ==> #[trigger] after[i] == files[i]
        }),
    decreases files.len(),
{
    if place > 0 {
        let rest = files.skip(1);
        assert(files[0].0 != path);
        assert forall|i: int| 0 <= i < place - 1 implies (#[trigger] rest[i]).0 != path by {
            assert(files[i + 1].0 != path);
        }
        a_file_takes_the_place_of_the_one_at_its_path(rest, path, text, place - 1);
        let after = workload::with_file(files, path, text);
        let fewer = workload::with_file(rest, path, text);
        assert(after =~= seq![files[0]] + fewer);
        assert forall|i: int| 0 <= i < files.len() && i != place implies #[trigger] after[i]
            == files[i] by {
            if i > 0 {
                assert(fewer[i - 1] == rest[i - 1]);
            }
        }
    }
}

} // verus!
