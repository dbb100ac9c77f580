//! The program assembler.  It walks one drivetrain plus the auxiliary
//! subsystems through the five phases in a fixed global order, deduplicates
//! the import lines across subsystems, and wraps everything in the fixed
//! program skeleton.  Generation is total: it reads the configuration and
//! overwrites the held text, and never fails.

use vstd::prelude::*;
use vstd::relations::sorted_by;
use crate::components::Component;
use crate::emit::{
    concat_frags, join_terminated, lemma_concat_frags_permutation, lemma_concat_frags_take_step,
    lemma_join_terminated_take_step, line_views,
};
use crate::lines::{
    lemma_unique_sorted_permutation, lemma_unique_sorted_props, lex_le_fn, unique_sorted,
    unique_sorted_lines,
};
use crate::subsystem::{
    sub_globals, sub_import_lines, sub_init, sub_loop, sub_loop_setup, Subsystem,
};

verus! {

/// Per-subsystem import lines.
pub open spec fn sub_import_lines_frag() -> spec_fn(Subsystem) -> Seq<Seq<char>> {
    |s: Subsystem| sub_import_lines(s)
}

/// Per-subsystem global-declaration blocks.
pub open spec fn sub_globals_frag() -> spec_fn(Subsystem) -> Seq<char> {
    |s: Subsystem| sub_globals(s)
}

/// Per-subsystem startup blocks.
pub open spec fn sub_init_frag() -> spec_fn(Subsystem) -> Seq<char> {
    |s: Subsystem| sub_init(s)
}

/// Per-subsystem one-time setup blocks.
pub open spec fn sub_setup_frag() -> spec_fn(Subsystem) -> Seq<char> {
    |s: Subsystem| sub_loop_setup(s)
}

/// Per-subsystem per-iteration blocks.
pub open spec fn sub_loop_frag() -> spec_fn(Subsystem) -> Seq<char> {
    |s: Subsystem| sub_loop(s)
}

/// Every import line the configuration contributes: the drivetrain's, then
/// each auxiliary subsystem's, in list order.
pub open spec fn all_import_lines(dt: Subsystem, subs: Seq<Subsystem>) -> Seq<Seq<char>> {
    sub_import_lines(dt) + concat_frags(subs, sub_import_lines_frag())
}

/// The emitted import block: the contributed lines sorted
/// lexicographically, without duplicates.
pub open spec fn import_block(dt: Subsystem, subs: Seq<Subsystem>) -> Seq<Seq<char>> {
    unique_sorted(all_import_lines(dt, subs))
}

/// The fixed package and framework import preamble.
pub open spec fn preamble() -> Seq<char> {
    "package org.firstinspires.ftc.teamcode;\n\nimport com.qualcomm.robotcore.eventloop.opmode.LinearOpMode;\nimport com.qualcomm.robotcore.eventloop.opmode.TeleOp;\nimport com.qualcomm.robotcore.util.ElapsedTime;\nimport com.qualcomm.robotcore.util.Range;\n"@
}

/// The fixed annotation, class declaration and runtime-timer field.
pub open spec fn class_header() -> Seq<char> {
    "@TeleOp(name=\"EasyFTC Teleop\", group=\"Linear Opmode\")\npublic class EasyFTC_teleop extends LinearOpMode {\n\n\tprivate ElapsedTime runtime = new ElapsedTime();\n\n"@
}

/// The fixed entry-point opening with its startup telemetry announcement.
pub open spec fn run_op_mode_open() -> Seq<char> {
    "\t@Override\n\tpublic void runOpMode() {\n\n\t\ttelemetry.addData(\"Status\", \"Initialized\");\n\t\ttelemetry.update();\n\n"@
}

/// The fixed wait-for-start, timer reset and loop opening.
pub open spec fn wait_for_start_block() -> Seq<char> {
    "\t\twaitForStart();\n\n\t\t// Reset the timer (stopwatch) because we only care about time since the game\n\t\t// actually starts\n\t\truntime.reset();\n\n\t\twhile (opModeIsActive()) {\n\n"@
}

/// The fixed telemetry update and the closing braces of loop, method and
/// class.
pub open spec fn closing() -> Seq<char> {
    "\t\t\ttelemetry.update();\n\t\t}\n\t}\n}"@
}

/// The complete generated program for a configuration: the fixed skeleton
/// around the five phase sections, each section holding the drivetrain's
/// block first and then every auxiliary subsystem's block in list order,
/// with the import block deduplicated across subsystems.
pub open spec fn program_text(dt: Subsystem, subs: Seq<Subsystem>) -> Seq<char> {
    preamble() + join_terminated(import_block(dt, subs)) + "\n"@ + class_header() + sub_globals(dt)
        + concat_frags(subs, sub_globals_frag()) + run_op_mode_open() + sub_init(dt)
        + concat_frags(subs, sub_init_frag()) + wait_for_start_block() + sub_loop_setup(dt)
        + concat_frags(subs, sub_setup_frag()) + sub_loop(dt) + concat_frags(subs, sub_loop_frag())
        + closing()
}

/// The user-held application state: the configuration tree and the text
/// generated from it last.
pub struct TemplateApp {
    pub label: String,
    pub drivetrain: Subsystem,
    pub subsystems: Vec<Subsystem>,
    pub code: String,
    pub selected_subsystem: usize,
}

impl TemplateApp {
    /// The configuration invariant: the one mandatory drivetrain carries
    /// the flag, and no auxiliary subsystem does.
    pub open spec fn wf(self) -> bool {
        &&& self.drivetrain.is_drivetrain
        &&& forall|i: int|
            0 <= i < self.subsystems@.len() ==> !(#[trigger] self.subsystems@[i]).is_drivetrain
    }
}

impl Default for TemplateApp {
    /// A fresh configuration: an empty drivetrain, no auxiliary subsystems,
    /// no generated text yet.
    fn default() -> (r: Self)
        ensures
            r.wf(),
            r.label@ == "EasyFTC"@,
            r.drivetrain.name@ == "Drivetrain"@,
            r.drivetrain.is_drivetrain,
            r.drivetrain.components@ == Seq::<Component>::empty(),
            r.subsystems@ == Seq::<Subsystem>::empty(),
            r.code@ == Seq::<char>::empty(),
            r.selected_subsystem == 0,
    {
        TemplateApp {
            label: String::from_str("EasyFTC"),
            drivetrain: Subsystem::new(String::from_str("Drivetrain"), true),
            subsystems: Vec::new(),
            code: String::new(),
            selected_subsystem: 0,
        }
    }
}

/// The import lines of the whole configuration, drivetrain first.
fn collect_import_lines(dt: &Subsystem, subs: &Vec<Subsystem>) -> (r: Vec<String>)
    ensures
        line_views(r@) == all_import_lines(*dt, subs@),
{
    let mut lines = dt.import_lines();
    proof {
        assert(subs@.take(0) =~= Seq::<Subsystem>::empty());
        assert(line_views(lines@) =~= sub_import_lines(*dt) + concat_frags(
            subs@.take(0),
            sub_import_lines_frag(),
        ));
    }
    let mut i: usize = 0;
    while i < subs.len()
        invariant
            i <= subs.len(),
            line_views(lines@) == sub_import_lines(*dt) + concat_frags(
                subs@.take(i as int),
                sub_import_lines_frag(),
            ),
        decreases subs.len() - i,
    {
        let mut ls = subs[i].import_lines();
        let ghost prev = lines@;
        let ghost lsv = ls@;
        lines.append(&mut ls);
        proof {
            lemma_concat_frags_take_step(subs@, sub_import_lines_frag(), i as int);
            assert(line_views(lines@) =~= line_views(prev) + line_views(lsv));
            assert(line_views(lines@) =~= sub_import_lines(*dt) + concat_frags(
                subs@.take(i as int + 1),
                sub_import_lines_frag(),
            ));
        }
        i = i + 1;
    }
    proof {
        assert(subs@.take(subs@.len() as int) =~= subs@);
    }
    lines
}

/// Appends the given lines, each terminated by a newline.
fn append_lines(code: &mut String, lines: &Vec<String>)
    ensures
        final(code)@ == old(code)@ + join_terminated(line_views(lines@)),
{
    proof {
        assert(line_views(lines@).take(0) =~= Seq::<Seq<char>>::empty());
        assert(code@ =~= old(code)@ + join_terminated(line_views(lines@).take(0)));
    }
    let mut i: usize = 0;
    while i < lines.len()
        invariant
            i <= lines.len(),
            code@ == old(code)@ + join_terminated(line_views(lines@).take(i as int)),
        decreases lines.len() - i,
    {
        code.append(lines[i].as_str());
        code.append("\n");
        proof {
            lemma_join_terminated_take_step(line_views(lines@), i as int);
            assert(line_views(lines@)[i as int] == lines@[i as int]@);
            assert(code@ =~= old(code)@ + join_terminated(line_views(lines@).take(i as int + 1)));
        }
        i = i + 1;
    }
    proof {
        assert(line_views(lines@).take(lines@.len() as int) =~= line_views(lines@));
    }
}

/// Appends each auxiliary subsystem's global-declaration block, in order.
fn append_aux_globals(code: &mut String, subs: &Vec<Subsystem>)
    ensures
        final(code)@ == old(code)@ + concat_frags(subs@, sub_globals_frag()),
{
    proof {
        assert(subs@.take(0) =~= Seq::<Subsystem>::empty());
        assert(code@ =~= old(code)@ + concat_frags(subs@.take(0), sub_globals_frag()));
    }
    let mut i: usize = 0;
    while i < subs.len()
        invariant
            i <= subs.len(),
            code@ == old(code)@ + concat_frags(subs@.take(i as int), sub_globals_frag()),
        decreases subs.len() - i,
    {
        let g = subs[i].generate_globals();
        code.append(g.as_str());
        proof {
            lemma_concat_frags_take_step(subs@, sub_globals_frag(), i as int);
            assert(code@ =~= old(code)@ + concat_frags(
                subs@.take(i as int + 1),
                sub_globals_frag(),
            ));
        }
        i = i + 1;
    }
    proof {
        assert(subs@.take(subs@.len() as int) =~= subs@);
    }
}

/// Appends each auxiliary subsystem's startup block, in order.
fn append_aux_init(code: &mut String, subs: &Vec<Subsystem>)
    ensures
        final(code)@ == old(code)@ + concat_frags(subs@, sub_init_frag()),
{
    proof {
        assert(subs@.take(0) =~= Seq::<Subsystem>::empty());
        assert(code@ =~= old(code)@ + concat_frags(subs@.take(0), sub_init_frag()));
    }
    let mut i: usize = 0;
    while i < subs.len()
        invariant
            i <= subs.len(),
            code@ == old(code)@ + concat_frags(subs@.take(i as int), sub_init_frag()),
        decreases subs.len() - i,
    {
        let g = subs[i].generate_init();
        code.append(g.as_str());
        proof {
            lemma_concat_frags_take_step(subs@, sub_init_frag(), i as int);
            assert(code@ =~= old(code)@ + concat_frags(subs@.take(i as int + 1), sub_init_frag()));
        }
        i = i + 1;
    }
    proof {
        assert(subs@.take(subs@.len() as int) =~= subs@);
    }
}

/// Appends each auxiliary subsystem's one-time setup block, in order.
fn append_aux_setup(code: &mut String, subs: &Vec<Subsystem>)
    ensures
        final(code)@ == old(code)@ + concat_frags(subs@, sub_setup_frag()),
{
    proof {
        assert(subs@.take(0) =~= Seq::<Subsystem>::empty());
        assert(code@ =~= old(code)@ + concat_frags(subs@.take(0), sub_setup_frag()));
    }
    let mut i: usize = 0;
    while i < subs.len()
        invariant
            i <= subs.len(),
            code@ == old(code)@ + concat_frags(subs@.take(i as int), sub_setup_frag()),
        decreases subs.len() - i,
    {
        let g = subs[i].generate_loop_one_time_setup();
        code.append(g.as_str());
        proof {
            lemma_concat_frags_take_step(subs@, sub_setup_frag(), i as int);
            assert(code@ =~= old(code)@ + concat_frags(
                subs@.take(i as int + 1),
                sub_setup_frag(),
            ));
        }
        i = i + 1;
    }
    proof {
        assert(subs@.take(subs@.len() as int) =~= subs@);
    }
}

/// Appends each auxiliary subsystem's per-iteration block, in order.
fn append_aux_loop(code: &mut String, subs: &Vec<Subsystem>)
    ensures
        final(code)@ == old(code)@ + concat_frags(subs@, sub_loop_frag()),
{
    proof {
        assert(subs@.take(0) =~= Seq::<Subsystem>::empty());
        assert(code@ =~= old(code)@ + concat_frags(subs@.take(0), sub_loop_frag()));
    }
    let mut i: usize = 0;
    while i < subs.len()
        invariant
            i <= subs.len(),
            code@ == old(code)@ + concat_frags(subs@.take(i as int), sub_loop_frag()),
        decreases subs.len() - i,
    {
        let g = subs[i].generate_loop();
        code.append(g.as_str());
        proof {
            lemma_concat_frags_take_step(subs@, sub_loop_frag(), i as int);
            assert(code@ =~= old(code)@ + concat_frags(subs@.take(i as int + 1), sub_loop_frag()));
        }
        i = i + 1;
    }
    proof {
        assert(subs@.take(subs@.len() as int) =~= subs@);
    }
}

impl TemplateApp {
    /// Recomputes the generated program from the held configuration and
    /// replaces the held text with it.  The configuration is only read;
    /// the result is exactly the program text of the configuration.
    pub fn generate_code(&mut self)
        ensures
            final(self).code@ == program_text(old(self).drivetrain, old(self).subsystems@),
            final(self).label == old(self).label,
            final(self).drivetrain == old(self).drivetrain,
            final(self).subsystems == old(self).subsystems,
            final(self).selected_subsystem == old(self).selected_subsystem,
    {
        let mut code = String::new();
        code.append(
            "package org.firstinspires.ftc.teamcode;\n\nimport com.qualcomm.robotcore.eventloop.opmode.LinearOpMode;\nimport com.qualcomm.robotcore.eventloop.opmode.TeleOp;\nimport com.qualcomm.robotcore.util.ElapsedTime;\nimport com.qualcomm.robotcore.util.Range;\n",
        );
        proof {
            assert(code@ =~= preamble());
        }
        let lines = collect_import_lines(&self.drivetrain, &self.subsystems);
        let block = unique_sorted_lines(lines);
        append_lines(&mut code, &block);
        code.append("\n");
        code.append(
            "@TeleOp(name=\"EasyFTC Teleop\", group=\"Linear Opmode\")\npublic class EasyFTC_teleop extends LinearOpMode {\n\n\tprivate ElapsedTime runtime = new ElapsedTime();\n\n",
        );
        let g = self.drivetrain.generate_globals();
        code.append(g.as_str());
        append_aux_globals(&mut code, &self.subsystems);
        code.append(
            "\t@Override\n\tpublic void runOpMode() {\n\n\t\ttelemetry.addData(\"Status\", \"Initialized\");\n\t\ttelemetry.update();\n\n",
        );
        let ini = self.drivetrain.generate_init();
        code.append(ini.as_str());
        append_aux_init(&mut code, &self.subsystems);
        code.append(
            "\t\twaitForStart();\n\n\t\t// Reset the timer (stopwatch) because we only care about time since the game\n\t\t// actually starts\n\t\truntime.reset();\n\n\t\twhile (opModeIsActive()) {\n\n",
        );
        let setup = self.drivetrain.generate_loop_one_time_setup();
        code.append(setup.as_str());
        append_aux_setup(&mut code, &self.subsystems);
        let lp = self.drivetrain.generate_loop();
        code.append(lp.as_str());
        append_aux_loop(&mut code, &self.subsystems);
        code.append("\t\t\ttelemetry.update();\n\t\t}\n\t}\n}");
        proof {
            assert(line_views(block@) == import_block(self.drivetrain, self.subsystems@));
            assert(code@ =~= program_text(self.drivetrain, self.subsystems@));
        }
        self.code = code;
    }
}

/// The generated text is a pure function of the configuration: two
/// application states holding equal configurations generate byte-identical
/// programs, so repeating a generation pass over an unchanged configuration
/// reproduces the same text.
pub proof fn lemma_generation_idempotent(a: TemplateApp, b: TemplateApp)
    requires
        a.drivetrain == b.drivetrain,
        a.subsystems@ == b.subsystems@,
    ensures
        program_text(a.drivetrain, a.subsystems@) == program_text(b.drivetrain, b.subsystems@),
{
}

/// Permuting the auxiliary-subsystem list never changes the import block:
/// it stays the sorted, duplicate-free form of the same contributed lines.
pub proof fn lemma_import_block_order_invariant(
    dt: Subsystem,
    subs1: Seq<Subsystem>,
    subs2: Seq<Subsystem>,
)
    requires
        subs1.to_multiset() == subs2.to_multiset(),
    ensures
        import_block(dt, subs1) == import_block(dt, subs2),
{
    lemma_concat_frags_permutation(subs1, subs2, sub_import_lines_frag());
    vstd::seq_lib::lemma_multiset_commutative(
        sub_import_lines(dt),
        concat_frags(subs1, sub_import_lines_frag()),
    );
    vstd::seq_lib::lemma_multiset_commutative(
        sub_import_lines(dt),
        concat_frags(subs2, sub_import_lines_frag()),
    );
    lemma_unique_sorted_permutation(all_import_lines(dt, subs1), all_import_lines(dt, subs2));
}

/// The import block is sorted, holds no duplicate line, and holds exactly
/// the lines the subsystems contributed.
pub proof fn lemma_import_block_is_sorted_union(dt: Subsystem, subs: Seq<Subsystem>)
    ensures
        sorted_by(import_block(dt, subs), lex_le_fn()),
        import_block(dt, subs).no_duplicates(),
        forall|l: Seq<char>|
            import_block(dt, subs).contains(l) <==> all_import_lines(dt, subs).contains(l),
{
    lemma_unique_sorted_props(all_import_lines(dt, subs));
}

/// Drivetrain first: in every phase section of the generated program, the
/// drivetrain's block is the prefix, before any auxiliary subsystem's.
pub proof fn lemma_drivetrain_first(dt: Subsystem, subs: Seq<Subsystem>)
    ensures
        (sub_globals(dt) + concat_frags(subs, sub_globals_frag())).take(
            sub_globals(dt).len() as int,
        ) == sub_globals(dt),
        (sub_init(dt) + concat_frags(subs, sub_init_frag())).take(sub_init(dt).len() as int)
            == sub_init(dt),
        (sub_loop_setup(dt) + concat_frags(subs, sub_setup_frag())).take(
            sub_loop_setup(dt).len() as int,
        ) == sub_loop_setup(dt),
        (sub_loop(dt) + concat_frags(subs, sub_loop_frag())).take(sub_loop(dt).len() as int)
            == sub_loop(dt),
{
    assert((sub_globals(dt) + concat_frags(subs, sub_globals_frag())).take(
        sub_globals(dt).len() as int,
    ) =~= sub_globals(dt));
    assert((sub_init(dt) + concat_frags(subs, sub_init_frag())).take(sub_init(dt).len() as int)
        =~= sub_init(dt));
    assert((sub_loop_setup(dt) + concat_frags(subs, sub_setup_frag())).take(
        sub_loop_setup(dt).len() as int,
    ) =~= sub_loop_setup(dt));
    assert((sub_loop(dt) + concat_frags(subs, sub_loop_frag())).take(sub_loop(dt).len() as int)
        =~= sub_loop(dt));
}

} // verus!
