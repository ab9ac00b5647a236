use edlite::buffer::Buffer;

#[test]
fn index_test() {
    let mut buffer = Buffer::default();
    buffer.cursor = 1;
    buffer.lines = (0..20).map(|i| i.to_string()).collect();

    let command = "1,10p";
    let (index, command) = buffer.parse_index(command);

    assert_eq!(index, Ok(Some((1, Some(10)))));
    assert_eq!(command, "p");

    let command = "0,10p";
    let (index, _) = buffer.parse_index(command);

    assert_eq!(index, Err(()));

    let command = "1,201p";
    let (index, _) = buffer.parse_index(command);

    assert_eq!(index, Err(()));

    let command = "0,201p";
    let (index, _) = buffer.parse_index(command);

    assert_eq!(index, Err(()));
}

#[test]
fn subtraction_test() {
    let mut buffer = Buffer::default();
    buffer.cursor = 1;
    buffer.lines = (0..20).map(|i| i.to_string()).collect();

    let command = "1,--10p";
    let (index, command) = buffer.parse_index(command);

    assert_eq!(index, Ok(Some((1, Some(8)))));
    assert_eq!(command, "p");

    let command = "--3,10p";
    let (index, command) = buffer.parse_index(command);

    assert_eq!(index, Ok(Some((1, Some(10)))));
    assert_eq!(command, "p");

    let command = "--3,--10p";
    let (index, command) = buffer.parse_index(command);

    assert_eq!(index, Ok(Some((1, Some(8)))));
    assert_eq!(command, "p");

    let command = "--1,10p";
    let (index, _) = buffer.parse_index(command);

    assert_eq!(index, Err(()));

    let command = "1,--1p";
    let (index, _) = buffer.parse_index(command);

    assert_eq!(index, Err(()));

    let command = "--1,--1p";
    let (index, _) = buffer.parse_index(command);

    assert_eq!(index, Err(()));
}

#[test]
fn addition_test() {
    let mut buffer = Buffer::default();
    buffer.cursor = 1;
    buffer.lines = (0..20).map(|i| i.to_string()).collect();

    let command = "1,++10p";
    let (index, command) = buffer.parse_index(command);

    assert_eq!(index, Ok(Some((1, Some(12)))));
    assert_eq!(command, "p");

    let command = "++1,10p";
    let (index, command) = buffer.parse_index(command);

    assert_eq!(index, Ok(Some((3, Some(10)))));
    assert_eq!(command, "p");

    let command = "++1,++10p";
    let (index, command) = buffer.parse_index(command);

    assert_eq!(index, Ok(Some((3, Some(12)))));
    assert_eq!(command, "p");
}

#[test]
fn single_index_test() {
    let mut buffer = Buffer::default();
    buffer.cursor = 1;
    buffer.lines = (0..9).map(|i| i.to_string()).collect();

    let command = ",p";
    println!("Testing {command}");
    let (index, command) = buffer.parse_index(command);
    assert_eq!(index, Ok(Some((1, Some(9)))));
    assert_eq!(command, "p");

    let command = ";p";
    println!("Testing {command}");
    let (index, command) = buffer.parse_index(command);
    assert_eq!(index, Ok(Some((0, Some(9)))));
    assert_eq!(command, "p");

    let command = ";++p";
    println!("Testing {command}");
    let (index, command) = buffer.parse_index(command);
    assert_eq!(index, Err(()));
    assert_eq!(command, "p");

    let command = ";12p";
    println!("Testing {command}");
    let (index, command) = buffer.parse_index(command);
    assert_eq!(index, Err(()));
    assert_eq!(command, "p");

    let command = "++;p";
    println!("Testing {command}");
    let (index, command) = buffer.parse_index(command);
    assert_eq!(index, Err(()));
    assert_eq!(command, "p");
}

#[test]
fn dollar_sign_test() {
    let mut buffer = Buffer::default();
    buffer.cursor = 1;
    buffer.lines = (0..9).map(|i| i.to_string()).collect();

    let command = "1,$p";
    println!("testing {command}");
    let (index, command) = buffer.parse_index(command);
    assert_eq!(index, Ok(Some((1, Some(9)))));
    assert_eq!(command, "p");

    let command = "$p";
    println!("testing {command}");
    let (index, command) = buffer.parse_index(command);
    assert_eq!(index, Ok(Some((9, None))));
    assert_eq!(command, "p");

    let command = "$,9p";
    println!("testing {command}");
    let (index, command) = buffer.parse_index(command);
    assert_eq!(index, Ok(Some((9, Some(9)))));
    assert_eq!(command, "p");

    let command = "$,$p";
    println!("testing {command}");
    let (index, command) = buffer.parse_index(command);
    assert_eq!(index, Ok(Some((9, Some(9)))));
    assert_eq!(command, "p");

    let command = "--$,9p";
    println!("testing {command}");
    let (index, command) = buffer.parse_index(command);
    assert_eq!(index, Ok(Some((7, Some(9)))));
    assert_eq!(command, "p");

    let command = "1,--$p";
    println!("testing {command}");
    let (index, command) = buffer.parse_index(command);
    assert_eq!(index, Ok(Some((1, Some(7)))));
    assert_eq!(command, "p");
    let command = "--$,--$p";
    println!("testing {command}");
    let (index, command) = buffer.parse_index(command);
    assert_eq!(index, Ok(Some((7, Some(7)))));
    assert_eq!(command, "p");

    let command = "$,1p";
    println!("testing {command}");
    let (index, _) = buffer.parse_index(command);
    assert_eq!(index, Err(()));

    let command = "+$,1p";
    println!("testing {command}");
    let (index, _) = buffer.parse_index(command);
    assert_eq!(index, Err(()));
}

#[test]
fn dot_test() {
    let mut buffer = Buffer::default();
    buffer.cursor = 1;
    buffer.lines = (0..9).map(|i| i.to_string()).collect();

    let command = "1,.p";
    println!("testing {command}");
    let (index, command) = buffer.parse_index(command);
    assert_eq!(index, Ok(Some((1, Some(1)))));
    assert_eq!(command, "p");

    let command = ".p";
    println!("testing {command}");
    let (index, command) = buffer.parse_index(command);
    assert_eq!(index, Ok(Some((1, None))));
    assert_eq!(command, "p");

    let command = ".,9p";
    println!("testing {command}");
    let (index, command) = buffer.parse_index(command);
    assert_eq!(index, Ok(Some((1, Some(9)))));
    assert_eq!(command, "p");

    let command = ".,.p";
    println!("testing {command}");
    let (index, command) = buffer.parse_index(command);
    assert_eq!(index, Ok(Some((1, Some(1)))));
    assert_eq!(command, "p");

    let command = "++.,9p";
    println!("testing {command}");
    let (index, command) = buffer.parse_index(command);
    assert_eq!(index, Ok(Some((3, Some(9)))));
    assert_eq!(command, "p");

    let command = "1,++.p";
    println!("testing {command}");
    let (index, command) = buffer.parse_index(command);
    assert_eq!(index, Ok(Some((1, Some(3)))));
    assert_eq!(command, "p");
    let command = "++.,++.p";
    println!("testing {command}");
    let (index, command) = buffer.parse_index(command);
    assert_eq!(index, Ok(Some((3, Some(3)))));
    assert_eq!(command, "p");

    let command = "9,.p";
    println!("testing {command}");
    let (index, _) = buffer.parse_index(command);
    assert_eq!(index, Err(()));

    let command = "-.,9p";
    println!("testing {command}");
    let (index, _) = buffer.parse_index(command);
    assert_eq!(index, Err(()));
}
