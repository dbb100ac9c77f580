use easy_ftc::app::TemplateApp;
use easy_ftc::components::{Component, DcMotor, RevServo};
use easy_ftc::subsystem::Subsystem;

fn motor(name: &str, reversed: bool) -> Component {
    Component::Motor(DcMotor { name: name.to_string(), reversed })
}

fn servo(name: &str) -> Component {
    Component::Servo(RevServo { name: name.to_string() })
}

fn app_with(drivetrain: Subsystem, subsystems: Vec<Subsystem>) -> TemplateApp {
    let mut app = TemplateApp::default();
    app.drivetrain = drivetrain;
    app.subsystems = subsystems;
    app
}

fn subsystem_with(name: &str, is_drivetrain: bool, components: Vec<Component>) -> Subsystem {
    let mut s = Subsystem::new(name.to_string(), is_drivetrain);
    for c in components {
        s.push_component(c);
    }
    s
}

#[test]
fn empty_configuration_still_yields_complete_skeleton() {
    let mut app = TemplateApp::default();
    app.generate_code();
    let expected = "package org.firstinspires.ftc.teamcode;\n\
        \n\
        import com.qualcomm.robotcore.eventloop.opmode.LinearOpMode;\n\
        import com.qualcomm.robotcore.eventloop.opmode.TeleOp;\n\
        import com.qualcomm.robotcore.util.ElapsedTime;\n\
        import com.qualcomm.robotcore.util.Range;\n\
        \n\
        @TeleOp(name=\"EasyFTC Teleop\", group=\"Linear Opmode\")\n\
        public class EasyFTC_teleop extends LinearOpMode {\n\
        \n\
        \tprivate ElapsedTime runtime = new ElapsedTime();\n\
        \n\
        \t@Override\n\
        \tpublic void runOpMode() {\n\
        \n\
        \t\ttelemetry.addData(\"Status\", \"Initialized\");\n\
        \t\ttelemetry.update();\n\
        \n\
        \t\twaitForStart();\n\
        \n\
        \t\t// Reset the timer (stopwatch) because we only care about time since the game\n\
        \t\t// actually starts\n\
        \t\truntime.reset();\n\
        \n\
        \t\twhile (opModeIsActive()) {\n\
        \n\
        \t\t\ttelemetry.update();\n\
        \t\t}\n\
        \t}\n\
        }";
    assert_eq!(app.code, expected);
}

#[test]
fn one_motor_drivetrain_full_program() {
    let dt = subsystem_with("Drivetrain", true, vec![motor("left_drive", false)]);
    let mut app = app_with(dt, vec![]);
    app.generate_code();
    let expected = "package org.firstinspires.ftc.teamcode;\n\
        \n\
        import com.qualcomm.robotcore.eventloop.opmode.LinearOpMode;\n\
        import com.qualcomm.robotcore.eventloop.opmode.TeleOp;\n\
        import com.qualcomm.robotcore.util.ElapsedTime;\n\
        import com.qualcomm.robotcore.util.Range;\n\
        import com.qualcomm.robotcore.hardware.DcMotor;\n\
        \n\
        @TeleOp(name=\"EasyFTC Teleop\", group=\"Linear Opmode\")\n\
        public class EasyFTC_teleop extends LinearOpMode {\n\
        \n\
        \tprivate ElapsedTime runtime = new ElapsedTime();\n\
        \n\
        \t// Drivetrain\n\
        \tprivate DcMotor left_drive = null;\n\
        \n\
        \t@Override\n\
        \tpublic void runOpMode() {\n\
        \n\
        \t\ttelemetry.addData(\"Status\", \"Initialized\");\n\
        \t\ttelemetry.update();\n\
        \n\
        \t\tleft_drive = hardwareMap.get(DcMotor.class, \"left_drive\");\n\
        \t\tleft_drive.setDirection(DcMotor.Direction.FORWARD);\n\
        \n\
        \t\twaitForStart();\n\
        \n\
        \t\t// Reset the timer (stopwatch) because we only care about time since the game\n\
        \t\t// actually starts\n\
        \t\truntime.reset();\n\
        \n\
        \t\twhile (opModeIsActive()) {\n\
        \n\
        \t\t\tdouble drive = -gamepad1.left_stick_y;\n\
        \t\t\tdouble turn = gamepad1.right_stick_x;\n\
        \t\t\tleft_drive.setPower(Range.clip(drive + turn, -1.0, 1.0));\n\
        \n\
        \t\t\ttelemetry.update();\n\
        \t\t}\n\
        \t}\n\
        }";
    assert_eq!(app.code, expected);
}

#[test]
fn generation_is_idempotent() {
    let dt = subsystem_with("Drivetrain", true, vec![motor("left", false), motor("right", true)]);
    let arm = subsystem_with("Arm", false, vec![motor("arm_motor", false), servo("wrist")]);
    let mut app = app_with(dt, vec![arm]);
    app.generate_code();
    let first = app.code.clone();
    app.generate_code();
    assert_eq!(app.code, first);
}

#[test]
fn shared_import_line_appears_exactly_once() {
    let arm = subsystem_with("Arm", false, vec![motor("arm_motor", false)]);
    let lift = subsystem_with("Lift", false, vec![motor("lift_motor", true)]);
    let dt = subsystem_with("Drivetrain", true, vec![]);
    let mut app = app_with(dt, vec![arm, lift]);
    app.generate_code();
    let occurrences = app.code.matches("import com.qualcomm.robotcore.hardware.DcMotor;").count();
    assert_eq!(occurrences, 1);
}

#[test]
fn import_block_sorted_regardless_of_subsystem_order() {
    let dt = subsystem_with("Drivetrain", true, vec![]);
    let arm = subsystem_with("Arm", false, vec![servo("claw")]);
    let lift = subsystem_with("Lift", false, vec![motor("lift_motor", false)]);
    let mut app1 = app_with(dt, vec![arm, lift]);
    let dt2 = subsystem_with("Drivetrain", true, vec![]);
    let arm2 = subsystem_with("Arm", false, vec![servo("claw")]);
    let lift2 = subsystem_with("Lift", false, vec![motor("lift_motor", false)]);
    let mut app2 = app_with(dt2, vec![lift2, arm2]);
    app1.generate_code();
    app2.generate_code();
    // The text up to the class annotation is the preamble plus the import
    // block, which must not depend on the auxiliary order.
    let head1 = &app1.code[..app1.code.find("@TeleOp").unwrap()];
    let head2 = &app2.code[..app2.code.find("@TeleOp").unwrap()];
    assert_eq!(head1, head2);
    // The motor import sorts before the servo import.
    let motor_at = head1.find("import com.qualcomm.robotcore.hardware.DcMotor;").unwrap();
    let servo_at = head1.find("import com.qualcomm.robotcore.hardware.Servo;").unwrap();
    assert!(motor_at < servo_at);
    // Everything after the import block does depend on the order.
    assert_ne!(app1.code, app2.code);
}

#[test]
fn drivetrain_blocks_come_before_auxiliary_blocks() {
    let dt = subsystem_with("Drivetrain", true, vec![motor("front_left", false)]);
    let arm = subsystem_with("Arm", false, vec![motor("arm_motor", false)]);
    let mut app = app_with(dt, vec![arm]);
    app.generate_code();
    let code = &app.code;
    assert!(
        code.find("private DcMotor front_left").unwrap()
            < code.find("private DcMotor arm_motor").unwrap()
    );
    assert!(
        code.find("front_left = hardwareMap").unwrap()
            < code.find("arm_motor = hardwareMap").unwrap()
    );
    assert!(code.find("front_left.setPower").unwrap() < code.find("arm_motor.setPower").unwrap());
}

#[test]
fn slot_order_survives_renaming_a_component() {
    let before = subsystem_with("Arm", false, vec![motor("aaa", false), servo("claw")]);
    let after = subsystem_with("Arm", false, vec![motor("zzz", true), servo("claw")]);
    let g_before = before.generate_globals();
    let g_after = after.generate_globals();
    assert!(g_before.find("aaa").unwrap() < g_before.find("claw").unwrap());
    assert!(g_after.find("zzz").unwrap() < g_after.find("claw").unwrap());
    let l_before = before.generate_loop();
    let l_after = after.generate_loop();
    assert!(l_before.find("aaa").unwrap() < l_before.find("claw").unwrap());
    assert!(l_after.find("zzz").unwrap() < l_after.find("claw").unwrap());
}

#[test]
fn motor_direction_follows_reversed_flag() {
    let fwd = subsystem_with("Arm", false, vec![motor("m", false)]);
    let rev = subsystem_with("Arm", false, vec![motor("m", true)]);
    assert!(fwd.generate_init().contains("m.setDirection(DcMotor.Direction.FORWARD);"));
    assert!(rev.generate_init().contains("m.setDirection(DcMotor.Direction.REVERSE);"));
}

#[test]
fn subsystem_phase_outputs_for_motor_and_servo() {
    let s = subsystem_with("Intake", false, vec![motor("roller", false), servo("gate")]);
    assert_eq!(
        s.generate_includes(),
        "import com.qualcomm.robotcore.hardware.DcMotor;\n\
        import com.qualcomm.robotcore.hardware.Servo;\n"
    );
    assert_eq!(
        s.generate_globals(),
        "\t// Intake\n\
        \tprivate DcMotor roller = null;\n\
        \tprivate Servo gate = null;\n\
        \n"
    );
    assert_eq!(
        s.generate_init(),
        "\t\troller = hardwareMap.get(DcMotor.class, \"roller\");\n\
        \t\troller.setDirection(DcMotor.Direction.FORWARD);\n\
        \t\tgate = hardwareMap.get(Servo.class, \"gate\");\n\
        \n"
    );
    assert_eq!(s.generate_loop_one_time_setup(), "\t\t\tgate.setPosition(0.0);\n");
    assert_eq!(
        s.generate_loop(),
        "\t\t\troller.setPower(Range.clip(-gamepad2.left_stick_y, -1.0, 1.0));\n\
        \t\t\tgate.setPosition(gamepad2.right_trigger);\n\
        \n"
    );
}

#[test]
fn empty_subsystem_emits_nothing_per_phase() {
    let s = Subsystem::new("Spare".to_string(), false);
    assert_eq!(s.generate_includes(), "");
    assert_eq!(s.generate_globals(), "");
    assert_eq!(s.generate_init(), "");
    assert_eq!(s.generate_loop_one_time_setup(), "");
    assert_eq!(s.generate_loop(), "");
    assert_eq!(s.get_name(), "Spare");
}

#[test]
fn default_state_is_fresh() {
    let app = TemplateApp::default();
    assert_eq!(app.label, "EasyFTC");
    assert_eq!(app.drivetrain.name, "Drivetrain");
    assert!(app.drivetrain.is_drivetrain);
    assert!(app.drivetrain.components.is_empty());
    assert!(app.subsystems.is_empty());
    assert_eq!(app.code, "");
    assert_eq!(app.selected_subsystem, 0);
}
