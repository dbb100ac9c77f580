//! Hardware component kinds.  Each kind renders code fragments for the five
//! emission phases; every fragment is a pure function of the component's
//! configuration and is always well formed, whatever that configuration is.

use vstd::prelude::*;

verus! {

/// A DC motor slot: a named hardware handle plus a direction flag.
pub struct DcMotor {
    pub name: String,
    pub reversed: bool,
}

/// A servo slot: a named hardware handle.
pub struct RevServo {
    pub name: String,
}

/// One typed hardware component, owned by exactly one subsystem slot.
pub enum Component {
    Motor(DcMotor),
    Servo(RevServo),
}

/// The drive-vector decomposition a drivetrain computes once and passes by
/// value into each of its motors' loop fragments: the names of the forward
/// and turn expressions of the generated loop body.
pub struct DriveVector {
    pub drive: String,
    pub turn: String,
}

/// Name of the forward component of the drive vector.
pub open spec fn drive_expr() -> Seq<char> {
    "drive"@
}

/// Name of the turn component of the drive vector.
pub open spec fn turn_expr() -> Seq<char> {
    "turn"@
}

/// Import lines a component contributes, without newline terminators.
pub open spec fn comp_import_lines(c: Component) -> Seq<Seq<char>> {
    match c {
        Component::Motor(_) => seq!["import com.qualcomm.robotcore.hardware.DcMotor;"@],
        Component::Servo(_) => seq!["import com.qualcomm.robotcore.hardware.Servo;"@],
    }
}

/// The component's persistent handle declaration.
pub open spec fn comp_globals(c: Component) -> Seq<char> {
    match c {
        Component::Motor(m) => "\tprivate DcMotor "@ + m.name@ + " = null;\n"@,
        Component::Servo(sv) => "\tprivate Servo "@ + sv.name@ + " = null;\n"@,
    }
}

/// The component's startup block: hardware-map lookup by its own name and,
/// for a motor, its direction configuration.
pub open spec fn comp_init(c: Component) -> Seq<char> {
    match c {
        Component::Motor(m) => "\t\t"@ + m.name@ + " = hardwareMap.get(DcMotor.class, \""@
            + m.name@ + "\");\n"@ + "\t\t"@ + m.name@ + ".setDirection(DcMotor.Direction."@ + (
        if m.reversed {
            "REVERSE"@
        } else {
            "FORWARD"@
        }) + ");\n"@,
        Component::Servo(sv) => "\t\t"@ + sv.name@ + " = hardwareMap.get(Servo.class, \""@
            + sv.name@ + "\");\n"@,
    }
}

/// The component's one-time block after start is signaled, before the timed
/// loop; empty for motors.
pub open spec fn comp_loop_setup(c: Component) -> Seq<char> {
    match c {
        Component::Motor(_) => Seq::empty(),
        Component::Servo(sv) => "\t\t\t"@ + sv.name@ + ".setPosition(0.0);\n"@,
    }
}

/// The component's per-iteration block in an auxiliary subsystem: each
/// fragment reads its own control input, independently of its neighbours.
pub open spec fn comp_loop_body(c: Component) -> Seq<char> {
    match c {
        Component::Motor(m) => "\t\t\t"@ + m.name@
            + ".setPower(Range.clip(-gamepad2.left_stick_y, -1.0, 1.0));\n"@,
        Component::Servo(sv) => "\t\t\t"@ + sv.name@ + ".setPosition(gamepad2.right_trigger);\n"@,
    }
}

/// The component's per-iteration block in the drivetrain: motors apply the
/// shared drive vector handed to them; servos read a driver input.
pub open spec fn comp_drive_loop_body(c: Component, drive: Seq<char>, turn: Seq<char>) -> Seq<
    char,
> {
    match c {
        Component::Motor(m) => "\t\t\t"@ + m.name@ + ".setPower(Range.clip("@ + drive + " + "@
            + turn + ", -1.0, 1.0));\n"@,
        Component::Servo(sv) => "\t\t\t"@ + sv.name@ + ".setPosition(gamepad1.right_trigger);\n"@,
    }
}

impl DriveVector {
    /// The decomposition every drivetrain uses: a forward and a turn term.
    pub fn new() -> (v: DriveVector)
        ensures
            v.drive@ == drive_expr(),
            v.turn@ == turn_expr(),
    {
        DriveVector { drive: String::from_str("drive"), turn: String::from_str("turn") }
    }
}

impl Component {
    /// Import lines this component needs, one owned line each.
    pub fn includes(&self) -> (r: Vec<String>)
        ensures
            crate::emit::line_views(r@) == comp_import_lines(*self),
    {
        let mut out: Vec<String> = Vec::new();
        match self {
            Component::Motor(_) => {
                out.push(String::from_str("import com.qualcomm.robotcore.hardware.DcMotor;"));
            },
            Component::Servo(_) => {
                out.push(String::from_str("import com.qualcomm.robotcore.hardware.Servo;"));
            },
        }
        proof {
            assert(crate::emit::line_views(out@) =~= comp_import_lines(*self));
        }
        out
    }

    /// The handle declaration for this component.
    pub fn globals(&self) -> (r: String)
        ensures
            r@ == comp_globals(*self),
    {
        let mut out = String::new();
        match self {
            Component::Motor(m) => {
                out.append("\tprivate DcMotor ");
                out.append(m.name.as_str());
                out.append(" = null;\n");
            },
            Component::Servo(sv) => {
                out.append("\tprivate Servo ");
                out.append(sv.name.as_str());
                out.append(" = null;\n");
            },
        }
        proof {
            assert(out@ =~= comp_globals(*self));
        }
        out
    }

    /// The startup block for this component.
    pub fn init(&self) -> (r: String)
        ensures
            r@ == comp_init(*self),
    {
        let mut out = String::new();
        match self {
            Component::Motor(m) => {
                out.append("\t\t");
                out.append(m.name.as_str());
                out.append(" = hardwareMap.get(DcMotor.class, \"");
                out.append(m.name.as_str());
                out.append("\");\n");
                out.append("\t\t");
                out.append(m.name.as_str());
                out.append(".setDirection(DcMotor.Direction.");
                if m.reversed {
                    out.append("REVERSE");
                } else {
                    out.append("FORWARD");
                }
                out.append(");\n");
            },
            Component::Servo(sv) => {
                out.append("\t\t");
                out.append(sv.name.as_str());
                out.append(" = hardwareMap.get(Servo.class, \"");
                out.append(sv.name.as_str());
                out.append("\");\n");
            },
        }
        proof {
            assert(out@ =~= comp_init(*self));
        }
        out
    }

    /// The one-time setup block for this component.
    pub fn loop_one_time_setup(&self) -> (r: String)
        ensures
            r@ == comp_loop_setup(*self),
    {
        let mut out = String::new();
        match self {
            Component::Motor(_) => {},
            Component::Servo(sv) => {
                out.append("\t\t\t");
                out.append(sv.name.as_str());
                out.append(".setPosition(0.0);\n");
            },
        }
        proof {
            assert(out@ =~= comp_loop_setup(*self));
        }
        out
    }

    /// The per-iteration block for this component in an auxiliary subsystem.
    pub fn loop_body(&self) -> (r: String)
        ensures
            r@ == comp_loop_body(*self),
    {
        let mut out = String::new();
        match self {
            Component::Motor(m) => {
                out.append("\t\t\t");
                out.append(m.name.as_str());
                out.append(".setPower(Range.clip(-gamepad2.left_stick_y, -1.0, 1.0));\n");
            },
            Component::Servo(sv) => {
                out.append("\t\t\t");
                out.append(sv.name.as_str());
                out.append(".setPosition(gamepad2.right_trigger);\n");
            },
        }
        proof {
            assert(out@ =~= comp_loop_body(*self));
        }
        out
    }

    /// The per-iteration block for this component in the drivetrain, fed the
    /// drive vector the subsystem computed once for all of its motors.
    pub fn drive_loop_body(&self, v: &DriveVector) -> (r: String)
        ensures
            r@ == comp_drive_loop_body(*self, v.drive@, v.turn@),
    {
        let mut out = String::new();
        match self {
            Component::Motor(m) => {
                out.append("\t\t\t");
                out.append(m.name.as_str());
                out.append(".setPower(Range.clip(");
                out.append(v.drive.as_str());
                out.append(" + ");
                out.append(v.turn.as_str());
                out.append(", -1.0, 1.0));\n");
            },
            Component::Servo(sv) => {
                out.append("\t\t\t");
                out.append(sv.name.as_str());
                out.append(".setPosition(gamepad1.right_trigger);\n");
            },
        }
        proof {
            assert(out@ =~= comp_drive_loop_body(*self, v.drive@, v.turn@));
        }
        out
    }
}

} // verus!
