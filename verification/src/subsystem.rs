//! A subsystem: a named, ordered aggregate of components.  Each of the five
//! phase generators walks the component slots in the same stable order and
//! concatenates their fragments, adding subsystem-level boilerplate where
//! the program skeleton calls for it.  Generation only reads the subsystem.

use vstd::prelude::*;
use crate::components::{
    comp_drive_loop_body, comp_globals, comp_import_lines, comp_init, comp_loop_body,
    comp_loop_setup, drive_expr, turn_expr, Component, DriveVector,
};
use crate::emit::{
    concat_frags, join_terminated, lemma_concat_frags_pair, lemma_concat_frags_take_step,
    lemma_join_terminated_take_step, line_views,
};

verus! {

/// A named, ordered aggregate of components.  At most one subsystem of a
/// configuration is the drivetrain, and it is always emitted first.
pub struct Subsystem {
    pub name: String,
    pub is_drivetrain: bool,
    pub components: Vec<Component>,
}

/// Per-slot import lines.
pub open spec fn import_lines_frag() -> spec_fn(Component) -> Seq<Seq<char>> {
    |c: Component| comp_import_lines(c)
}

/// Per-slot global declarations.
pub open spec fn globals_frag() -> spec_fn(Component) -> Seq<char> {
    |c: Component| comp_globals(c)
}

/// Per-slot startup blocks.
pub open spec fn init_frag() -> spec_fn(Component) -> Seq<char> {
    |c: Component| comp_init(c)
}

/// Per-slot one-time setup blocks.
pub open spec fn setup_frag() -> spec_fn(Component) -> Seq<char> {
    |c: Component| comp_loop_setup(c)
}

/// Per-slot loop bodies of an auxiliary subsystem.
pub open spec fn body_frag() -> spec_fn(Component) -> Seq<char> {
    |c: Component| comp_loop_body(c)
}

/// Per-slot loop bodies of the drivetrain, fed the shared drive vector.
pub open spec fn drive_body_frag() -> spec_fn(Component) -> Seq<char> {
    |c: Component| comp_drive_loop_body(c, drive_expr(), turn_expr())
}

/// The drive-vector decomposition the drivetrain emits once, ahead of its
/// motors' fragments.
pub open spec fn decomp_block() -> Seq<char> {
    "\t\t\tdouble drive = -gamepad1.left_stick_y;\n\t\t\tdouble turn = gamepad1.right_stick_x;\n"@
}

/// The import lines a subsystem contributes: its components' lines, in
/// slot order.
pub open spec fn sub_import_lines(s: Subsystem) -> Seq<Seq<char>> {
    concat_frags(s.components@, import_lines_frag())
}

/// The subsystem's global-declaration block: a comment header naming the
/// subsystem, the slots' declarations in order, and a separating blank
/// line.  A subsystem without components contributes nothing.
pub open spec fn sub_globals(s: Subsystem) -> Seq<char> {
    if s.components@.len() == 0 {
        Seq::empty()
    } else {
        "\t// "@ + s.name@ + "\n"@ + concat_frags(s.components@, globals_frag()) + "\n"@
    }
}

/// The subsystem's startup block: the slots' blocks in order, then a blank
/// line; nothing when there are no components.
pub open spec fn sub_init(s: Subsystem) -> Seq<char> {
    if s.components@.len() == 0 {
        Seq::empty()
    } else {
        concat_frags(s.components@, init_frag()) + "\n"@
    }
}

/// The subsystem's one-time setup block: the slots' blocks in order.
pub open spec fn sub_loop_setup(s: Subsystem) -> Seq<char> {
    concat_frags(s.components@, setup_frag())
}

/// The subsystem's per-iteration block.  The drivetrain first emits the
/// shared drive-vector decomposition, then each slot's fragment built from
/// that vector; an auxiliary subsystem emits independent slot fragments.
pub open spec fn sub_loop(s: Subsystem) -> Seq<char> {
    if s.components@.len() == 0 {
        Seq::empty()
    } else if s.is_drivetrain {
        decomp_block() + concat_frags(s.components@, drive_body_frag()) + "\n"@
    } else {
        concat_frags(s.components@, body_frag()) + "\n"@
    }
}

/// Slot order is stable: with component slots `[a, b]`, every phase emits
/// `a`'s fragment before `b`'s, whatever the two components' names or
/// settings are — so renaming or reconfiguring a component never changes
/// the relative order of the slots' fragments.
pub proof fn lemma_slot_order_stable(s: Subsystem, a: Component, b: Component)
    requires
        s.components@ == seq![a, b],
    ensures
        sub_import_lines(s) == comp_import_lines(a) + comp_import_lines(b),
        sub_globals(s) == "\t// "@ + s.name@ + "\n"@ + (comp_globals(a) + comp_globals(b)) + "\n"@,
        sub_init(s) == (comp_init(a) + comp_init(b)) + "\n"@,
        sub_loop_setup(s) == comp_loop_setup(a) + comp_loop_setup(b),
        !s.is_drivetrain ==> sub_loop(s) == (comp_loop_body(a) + comp_loop_body(b)) + "\n"@,
        s.is_drivetrain ==> sub_loop(s) == decomp_block() + (comp_drive_loop_body(
            a,
            drive_expr(),
            turn_expr(),
        ) + comp_drive_loop_body(b, drive_expr(), turn_expr())) + "\n"@,
{
    lemma_concat_frags_pair(a, b, import_lines_frag());
    lemma_concat_frags_pair(a, b, globals_frag());
    lemma_concat_frags_pair(a, b, init_frag());
    lemma_concat_frags_pair(a, b, setup_frag());
    lemma_concat_frags_pair(a, b, body_frag());
    lemma_concat_frags_pair(a, b, drive_body_frag());
}

impl Subsystem {
    /// A fresh subsystem with no component slots yet.
    pub fn new(name: String, is_drivetrain: bool) -> (r: Subsystem)
        ensures
            r.name == name,
            r.is_drivetrain == is_drivetrain,
            r.components@ == Seq::<Component>::empty(),
    {
        Subsystem { name, is_drivetrain, components: Vec::new() }
    }

    /// The user-visible display name.
    pub fn get_name(&self) -> (r: &str)
        ensures
            r@ == self.name@,
    {
        self.name.as_str()
    }

    /// Adds a component in the next slot.
    pub fn push_component(&mut self, c: Component)
        ensures
            final(self).name == old(self).name,
            final(self).is_drivetrain == old(self).is_drivetrain,
            final(self).components@ == old(self).components@.push(c),
    {
        self.components.push(c);
    }

    /// The import lines of all slots, in slot order, one owned line each.
    pub fn import_lines(&self) -> (r: Vec<String>)
        ensures
            line_views(r@) == sub_import_lines(*self),
    {
        let mut out: Vec<String> = Vec::new();
        proof {
            assert(self.components@.take(0) =~= Seq::<Component>::empty());
            assert(line_views(out@) =~= concat_frags(
                self.components@.take(0),
                import_lines_frag(),
            ));
        }
        let mut i: usize = 0;
        while i < self.components.len()
            invariant
                i <= self.components.len(),
                line_views(out@) == concat_frags(
                    self.components@.take(i as int),
                    import_lines_frag(),
                ),
            decreases self.components.len() - i,
        {
            let mut ls = self.components[i].includes();
            let ghost prev = out@;
            let ghost lsv = ls@;
            out.append(&mut ls);
            proof {
                lemma_concat_frags_take_step(self.components@, import_lines_frag(), i as int);
                assert(line_views(out@) =~= line_views(prev) + line_views(lsv));
                assert(line_views(out@) =~= concat_frags(
                    self.components@.take(i as int + 1),
                    import_lines_frag(),
                ));
            }
            i = i + 1;
        }
        proof {
            assert(self.components@.take(self.components@.len() as int) =~= self.components@);
        }
        out
    }

    /// The import phase as one text block, each line newline-terminated.
    pub fn generate_includes(&self) -> (r: String)
        ensures
            r@ == join_terminated(sub_import_lines(*self)),
    {
        let lines = self.import_lines();
        let mut out = String::new();
        proof {
            assert(line_views(lines@).take(0) =~= Seq::<Seq<char>>::empty());
            assert(out@ =~= join_terminated(line_views(lines@).take(0)));
        }
        let mut i: usize = 0;
        while i < lines.len()
            invariant
                i <= lines.len(),
                line_views(lines@) == sub_import_lines(*self),
                out@ == join_terminated(line_views(lines@).take(i as int)),
            decreases lines.len() - i,
        {
            out.append(lines[i].as_str());
            out.append("\n");
            proof {
                lemma_join_terminated_take_step(line_views(lines@), i as int);
                assert(line_views(lines@)[i as int] == lines@[i as int]@);
                assert(out@ =~= join_terminated(line_views(lines@).take(i as int + 1)));
            }
            i = i + 1;
        }
        proof {
            assert(line_views(lines@).take(lines@.len() as int) =~= line_views(lines@));
        }
        out
    }

    /// The global-declaration phase.
    pub fn generate_globals(&self) -> (r: String)
        ensures
            r@ == sub_globals(*self),
    {
        if self.components.len() == 0 {
            return String::new();
        }
        let mut out = String::new();
        out.append("\t// ");
        out.append(self.name.as_str());
        out.append("\n");
        let ghost pre = "\t// "@ + self.name@ + "\n"@;
        proof {
            assert(self.components@.take(0) =~= Seq::<Component>::empty());
            assert(out@ =~= pre + concat_frags(self.components@.take(0), globals_frag()));
        }
        let mut i: usize = 0;
        while i < self.components.len()
            invariant
                i <= self.components.len(),
                pre == "\t// "@ + self.name@ + "\n"@,
                out@ == pre + concat_frags(self.components@.take(i as int), globals_frag()),
            decreases self.components.len() - i,
        {
            let frag = self.components[i].globals();
            out.append(frag.as_str());
            proof {
                lemma_concat_frags_take_step(self.components@, globals_frag(), i as int);
                assert(out@ =~= pre + concat_frags(
                    self.components@.take(i as int + 1),
                    globals_frag(),
                ));
            }
            i = i + 1;
        }
        out.append("\n");
        proof {
            assert(self.components@.take(self.components@.len() as int) =~= self.components@);
            assert(out@ =~= sub_globals(*self));
        }
        out
    }

    /// The startup phase.
    pub fn generate_init(&self) -> (r: String)
        ensures
            r@ == sub_init(*self),
    {
        if self.components.len() == 0 {
            return String::new();
        }
        let mut out = String::new();
        proof {
            assert(self.components@.take(0) =~= Seq::<Component>::empty());
            assert(out@ =~= concat_frags(self.components@.take(0), init_frag()));
        }
        let mut i: usize = 0;
        while i < self.components.len()
            invariant
                i <= self.components.len(),
                out@ == concat_frags(self.components@.take(i as int), init_frag()),
            decreases self.components.len() - i,
        {
            let frag = self.components[i].init();
            out.append(frag.as_str());
            proof {
                lemma_concat_frags_take_step(self.components@, init_frag(), i as int);
                assert(out@ =~= concat_frags(self.components@.take(i as int + 1), init_frag()));
            }
            i = i + 1;
        }
        out.append("\n");
        proof {
            assert(self.components@.take(self.components@.len() as int) =~= self.components@);
            assert(out@ =~= sub_init(*self));
        }
        out
    }

    /// The one-time setup phase.
    pub fn generate_loop_one_time_setup(&self) -> (r: String)
        ensures
            r@ == sub_loop_setup(*self),
    {
        let mut out = String::new();
        proof {
            assert(self.components@.take(0) =~= Seq::<Component>::empty());
            assert(out@ =~= concat_frags(self.components@.take(0), setup_frag()));
        }
        let mut i: usize = 0;
        while i < self.components.len()
            invariant
                i <= self.components.len(),
                out@ == concat_frags(self.components@.take(i as int), setup_frag()),
            decreases self.components.len() - i,
        {
            let frag = self.components[i].loop_one_time_setup();
            out.append(frag.as_str());
            proof {
                lemma_concat_frags_take_step(self.components@, setup_frag(), i as int);
                assert(out@ =~= concat_frags(self.components@.take(i as int + 1), setup_frag()));
            }
            i = i + 1;
        }
        proof {
            assert(self.components@.take(self.components@.len() as int) =~= self.components@);
        }
        out
    }

    /// The per-iteration phase.
    pub fn generate_loop(&self) -> (r: String)
        ensures
            r@ == sub_loop(*self),
    {
        if self.components.len() == 0 {
            return String::new();
        }
        let mut out = String::new();
        let ghost pre: Seq<char> = if self.is_drivetrain {
            decomp_block()
        } else {
            Seq::empty()
        };
        if self.is_drivetrain {
            out.append(
                "\t\t\tdouble drive = -gamepad1.left_stick_y;\n\t\t\tdouble turn = gamepad1.right_stick_x;\n",
            );
            let v = DriveVector::new();
            proof {
                assert(self.components@.take(0) =~= Seq::<Component>::empty());
                assert(out@ =~= pre + concat_frags(self.components@.take(0), drive_body_frag()));
            }
            let mut i: usize = 0;
            while i < self.components.len()
                invariant
                    i <= self.components.len(),
                    v.drive@ == drive_expr(),
                    v.turn@ == turn_expr(),
                    pre == decomp_block(),
                    out@ == pre + concat_frags(self.components@.take(i as int), drive_body_frag()),
                decreases self.components.len() - i,
            {
                let frag = self.components[i].drive_loop_body(&v);
                out.append(frag.as_str());
                proof {
                    lemma_concat_frags_take_step(self.components@, drive_body_frag(), i as int);
                    assert(out@ =~= pre + concat_frags(
                        self.components@.take(i as int + 1),
                        drive_body_frag(),
                    ));
                }
                i = i + 1;
            }
        } else {
            proof {
                assert(self.components@.take(0) =~= Seq::<Component>::empty());
                assert(out@ =~= pre + concat_frags(self.components@.take(0), body_frag()));
            }
            let mut i: usize = 0;
            while i < self.components.len()
                invariant
                    i <= self.components.len(),
                    !self.is_drivetrain,
                    pre == Seq::<char>::empty(),
                    out@ == pre + concat_frags(self.components@.take(i as int), body_frag()),
                decreases self.components.len() - i,
            {
                let frag = self.components[i].loop_body();
                out.append(frag.as_str());
                proof {
                    lemma_concat_frags_take_step(self.components@, body_frag(), i as int);
                    assert(out@ =~= pre + concat_frags(
                        self.components@.take(i as int + 1),
                        body_frag(),
                    ));
                }
                i = i + 1;
            }
        }
        out.append("\n");
        proof {
            assert(self.components@.take(self.components@.len() as int) =~= self.components@);
            assert(out@ =~= sub_loop(*self));
        }
        out
    }
}

} // verus!
