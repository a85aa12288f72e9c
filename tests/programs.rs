use mycon::{Config, ExecAction, FileView, Program, Request};

fn run_with_input(code: &str, input: &str) -> (String, i32) {
    let config = Config::new().input(input);
    let mut prog = Program::read(code).config(config);
    let exit = prog.run();
    (prog.take_output(), exit)
}

fn run(code: &str) -> (String, i32) {
    run_with_input(code, "")
}

fn test_output(code: &str, output: &str) {
    let (out, _) = run(code);
    assert_eq!(output, out);
}

const HELLO: &str = "a\"!dlroW olleH\">:#,_@";

const QUINE: &str = ":0g,:f4+-!;@,a;# _1+\n";

const FIBO: &str = "001p111p45*21p >21g!#v_01g11g+11g01p11p21g1-21pv\n               ^                               <\n                     >01g.@\n";

#[test]
fn hello() {
    test_output(HELLO, "Hello World!\n");
}

#[test]
fn quine() {
    test_output(QUINE, QUINE);
}

#[test]
fn fibo() {
    test_output(FIBO, "6765 ");
}

#[test]
fn hello_exits_with_zero() {
    assert_eq!((String::from("Hello World!\n"), 0), run(HELLO));
}

#[test]
fn multiply_and_print() {
    assert_eq!((String::from("25 "), 0), run("5 5 * . @"));
}

#[test]
fn division_by_zero_gives_zero() {
    assert_eq!((String::from("2 0 "), 0), run("4 2 / . 4 0 / . @"));
}

#[test]
fn remainder_by_zero_gives_zero() {
    assert_eq!((String::from("1 0 "), 0), run("7 3 % . 7 0 % . @"));
}

#[test]
fn quit_with_status() {
    assert_eq!((String::new(), 1), run("1 q"));
}

#[test]
fn two_pointers_stop() {
    assert_eq!((String::new(), 0), run("t@@"));
}

#[test]
fn duplicate_then_discard_is_no_op() {
    assert_eq!(run("12:$..@"), run("12..@"));
    assert_eq!((String::from("0 0 "), 0), run(":$..@"));
}

#[test]
fn iterate_zero_skips_next_command() {
    assert_eq!((String::from("0 2 1 "), 0), run("12 00k+ ...@"));
    assert_eq!(run("12 00k+ ...@"), run("12 0 ...@"));
}

#[test]
fn iterate_repeats_command() {
    assert_eq!((String::from("1 1 1 1 "), 0), run("13k:....@"));
}


#[test]
fn negative_arithmetic() {
    assert_eq!((String::from("-1 "), 0), run("01-.@"));
    assert_eq!((String::from("-3 "), 0), run("07-2/.@"));
}

#[test]
fn string_mode_collapses_spaces() {
    assert_eq!((String::from("a b"), 0), run("\"b   a\",,,@"));
}

#[test]
fn fetch_and_store_char() {
    assert_eq!((String::from("A"), 0), run("'A,@"));
    assert_eq!((String::from("A"), 0), run("'As 30g,@"));
}

#[test]
fn get_and_put() {
    assert_eq!((String::from("X"), 0), run("\"X\"50p 50g,@"));
}

#[test]
fn trampoline_and_directions() {
    assert_eq!((String::from("1 "), 0), run("#21.@"));
    assert_eq!((String::from("3 "), 0), run("v\n>3.@\n"));
}

#[test]
fn unknown_command_reflects() {
    // `H` reflects: the pointer goes back west, prints the 0 of an empty
    // stack, and wraps around onto `@`.
    assert_eq!((String::from("1 0 "), 0), run("1.H@"));
}

#[test]
fn input_decimal_and_char() {
    assert_eq!((String::from("42 7 "), 0), run_with_input("&.&.@", "42\n7\n"));
    assert_eq!((String::from("ba"), 0), run_with_input("~~,,@", "ab"));
}

#[test]
fn input_decimal_skips_to_digits() {
    assert_eq!((String::from("12 34 "), 0), run_with_input("&.&.@", "x12 34\n"));
}

#[test]
fn input_char_at_end_reflects() {
    // At the end of the input `~` reflects, and the pointer wraps onto `@`.
    assert_eq!((String::new(), 0), run_with_input("~@", ""));
}

#[test]
fn begin_and_end_block() {
    assert_eq!((String::from("2 0 "), 0), run("12 2{ 1} ..@"));
}

#[test]
fn end_block_with_single_stack_reflects() {
    assert_eq!((String::new(), 0), run("}@"));
}

#[test]
fn sysinfo_reports_cell_size_and_dimension() {
    assert_eq!((String::from("4 "), 0), run("2y.@"));
    assert_eq!((String::from("2 "), 0), run("7y.@"));
    assert_eq!((String::from("47 "), 0), run("6y.@"));
    assert_eq!((String::from("1246186841 "), 0), run("3y.@"));
}

#[test]
fn sysinfo_flags_follow_config() {
    let config = Config::new().input("").file_view(FileView::Deny).exec_action(ExecAction::Deny);
    let mut prog = Program::read("1y.@").config(config);
    assert_eq!(0, prog.run());
    assert_eq!("1 ", prog.take_output());

    assert_eq!((String::from("15 "), 0), run("1y.@"));
}

#[test]
fn file_denied_reflects() {
    let config = Config::new().input("").file_view(FileView::Deny);
    let mut prog = Program::read("0000\"a\"#@i").config(config);
    for _ in 0..100 {
        prog.step_single();
        assert!(prog.request().is_none());
    }
    assert_eq!(Some(0), prog.exit_status());
}

#[test]
fn write_file_request_renders_region() {
    // Writes the 2x2 region at (0, 1) to the file "f".
    let mut prog = Program::read("220100\"f\"o@\nab\ncd").config(Config::new().input(""));
    let mut data = None;
    for _ in 0..100 {
        prog.step_single();
        if let Some(Request::WriteFile { path, data: d }) = prog.request() {
            assert_eq!("f", path);
            data = Some(d.clone());
            break;
        }
    }
    assert_eq!(Some(String::from("ab\ncd\n")), data);
    prog.answer_write_file(true);
    assert_eq!(0, prog.run());
}

#[test]
fn read_file_request_loads_text() {
    let mut prog = Program::read("5000\"f\"i.....@").config(Config::new().input(""));
    let mut asked = false;
    for _ in 0..100 {
        prog.step_single();
        if let Some(Request::ReadFile { path, linear, origin }) = prog.request() {
            assert_eq!("f", path);
            assert!(!linear);
            assert_eq!(mycon::Point { x: 5, y: 0 }, *origin);
            asked = true;
            break;
        }
    }
    assert!(asked);
    prog.answer_read_file(Some("xy\nz\n"));
    assert_eq!(0, prog.run());
    assert_eq!("0 5 2 2 0 ", prog.take_output());
}

#[test]
fn execute_request_pushes_status() {
    let mut prog = Program::read("0\"eurt\"=.@").config(Config::new().input(""));
    let mut asked = false;
    for _ in 0..100 {
        prog.step_single();
        if let Some(Request::Execute { command }) = prog.request() {
            assert_eq!("true", command);
            asked = true;
            break;
        }
    }
    assert!(asked);
    prog.answer_execute(Some(3));
    assert_eq!(0, prog.run());
    assert_eq!("3 ", prog.take_output());
}

#[test]
fn input_request_waits_for_a_line() {
    let mut prog = Program::read("&.@");
    for _ in 0..10 {
        prog.step_single();
        if prog.request().is_some() {
            break;
        }
    }
    assert!(matches!(prog.request(), Some(Request::Input { decimal: true })));
    prog.answer_input(Some("17\n"));
    assert_eq!(0, prog.run());
    assert_eq!("17 ", prog.take_output());
}

#[test]
fn trace_records_commands() {
    let mut prog = Program::read("1.@").config(Config::new().input("").trace(true));
    prog.run();
    let traces = prog.take_traces();
    assert_eq!(3, traces.len());
    assert_eq!("0", traces[0].id());
    assert_eq!("1", traces[0].command());
    assert_eq!("(0, 0)", traces[0].position());
    assert_eq!("[1]", traces[0].stacks());
    assert_eq!("[]", traces[1].stacks());
}

#[test]
fn sysinfo_reports_date_and_time() {
    let (out, exit) = run("45*y.45*1+y.@");
    assert_eq!(0, exit);
    let values: Vec<i64> = out.split_whitespace().map(|v| v.parse().unwrap()).collect();
    assert_eq!(2, values.len());
    let (date, time) = (values[0], values[1]);
    assert!(date >= 120 << 16, "date {}", date);
    assert!((date >> 8) & 0xff >= 1 && (date >> 8) & 0xff <= 12);
    assert!(time < 24 << 16);
    assert!((time >> 8) & 0xff < 60 && time & 0xff < 60);
}

#[test]
fn sysinfo_block_without_selection() {
    // With n <= 0 the whole block stays: its top is the flags.
    assert_eq!((String::from("15 4 "), 0), run("0y..@"));
}

#[test]
fn iterate_continues_after_input_request() {
    // `3k~` reads three characters even when each one has to be asked for.
    let mut prog = Program::read("3k~,,,@");
    let mut answered = 0;
    for _ in 0..100 {
        prog.step_single();
        if prog.request().is_some() {
            answered += 1;
            prog.answer_input(Some("x\n"));
        }
        if prog.exit_status().is_some() {
            break;
        }
    }
    assert_eq!(Some(0), prog.exit_status());
    // Three characters from `k`, then `~` once more as the pointer passes it.
    assert!(answered >= 2);
    assert_eq!("\nx\n", &prog.take_output()[..3]);
}

#[test]
fn split_gives_next_identifiers() {
    let mut prog = Program::read("t@").config(Config::new().input("").trace(true));
    assert_eq!(0, prog.run());
    let ids: Vec<String> = prog.take_traces().iter().map(|t| t.id()).collect();
    assert_eq!(vec!["0", "1", "0"], ids);
}
