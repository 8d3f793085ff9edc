use mirrorscope::process_view::PhysicalFrame;
use mirrorscope::model::SourceLocation;
use mirrorscope::ptrace_view::{
    executable_base, physical_frames, read_comm, task_ids, UnwoundFrame,
};

#[test]
fn thread_ids_are_the_numeric_names_in_order() {
    let names = ["12", "self", "7", "-3", "12x", "100"].map(str::to_owned).to_vec();
    assert_eq!(task_ids(&names), vec![-3, 7, 12, 100]);
    assert!(task_ids(&vec![]).is_empty());
}

#[test]
fn a_thread_name_has_no_line_end() {
    assert_eq!(read_comm("worker 1 \n"), "worker 1");
    assert_eq!(read_comm("\n"), "");
}

#[test]
fn the_executable_is_based_at_its_least_mapping() {
    let maps = "\
55d000-55e000 r--p 00001000 08:01 42 /bin/app
55c000-55d000 r--p 00000000 08:01 42 /bin/app
001000-002000 r--p 00000000 08:01 43 /lib/libc.so
zz0000-000000 r--p 00000000 08:01 42 /bin/app
";
    assert_eq!(executable_base(maps, "/bin/app"), Some(0x55c000));
    assert_eq!(executable_base(maps, "/bin/other"), None);
    assert_eq!(executable_base("", "/bin/app"), None);
}

#[test]
fn only_the_leaf_has_a_stack_pointer() {
    let frame = |address, file: Option<&str>, line| UnwoundFrame {
        address,
        function: Some("f".to_string()),
        file: file.map(str::to_owned),
        line,
    };
    let frames = physical_frames(
        &vec![frame(1, Some("a.c"), Some(9)), frame(2, Some("b.c"), None), frame(3, None, Some(4))],
        0x7000,
    );
    let place = |path: &str, line| {
        Some(SourceLocation {
            path: path.to_string(),
            line,
            column: 0,
        })
    };
    let expected = |pc, sp, location| PhysicalFrame {
        pc,
        sp,
        function_name: Some("f".to_string()),
        location,
    };
    assert_eq!(
        frames,
        vec![
            expected(1, 0x7000, place("a.c", 9)),
            expected(2, 0, place("b.c", 0)),
            expected(3, 0, None),
        ]
    );
}

#[test]
fn only_the_executable_itself_counts_as_mapped() {
    let maps = "\
1000-2000 r--p 00000000 08:01 41 /opt/app
2000-3000 r--p 00000000 08:01 41 /my dir/app
3000-4000 r--p 00000000 08:01 42                         /app
4000-5000 rw-p 00000000 00:00 0 
5000-6000 rw-p 00000000 00:00 0 [heap]
";
    assert_eq!(executable_base(maps, "/app"), Some(0x3000));
    assert_eq!(executable_base(maps, "/my dir/app"), Some(0x2000));
    assert_eq!(executable_base(maps, "app"), None);
    assert_eq!(executable_base(maps, "dir/app"), None);
}
