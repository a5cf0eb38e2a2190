use insecure_socket_layer::toys::get_most_toys;

#[test]
fn basic_toys() {
    let s = "1x dog,3x car,2x rat\n";
    assert_eq!(get_most_toys(String::from(s)).unwrap(), "3x car\n");
}

#[test]
fn invalid_toys() {
    let s = "1x dog,3 car,2x rat\n";
    assert_eq!(
        get_most_toys(String::from(s)),
        Err(String::from("Invalid input string"))
    );

    let s = "\n";
    assert_eq!(
        get_most_toys(String::from(s)),
        Err(String::from("Invalid input string"))
    );
}

#[test]
fn equal_counts_take_the_later_entry() {
    let s = "2x dog,2x cat\n";
    assert_eq!(get_most_toys(String::from(s)).unwrap(), "2x cat\n");
}

#[test]
fn single_entry() {
    let s = "12x snow globe\n";
    assert_eq!(get_most_toys(String::from(s)).unwrap(), "12x snow globe\n");
}

#[test]
fn zero_count() {
    let s = "0x dog\n";
    assert_eq!(get_most_toys(String::from(s)).unwrap(), "0x dog\n");
}

#[test]
fn leading_plus_sign_parses() {
    let s = "+5x car,4x dog\n";
    assert_eq!(get_most_toys(String::from(s)).unwrap(), "5x car\n");
}

#[test]
fn surrounding_spaces_trimmed() {
    let s = "1x dog , 2x cat\n";
    assert_eq!(get_most_toys(String::from(s)).unwrap(), "2x cat\n");
}

#[test]
fn largest_count_in_range() {
    let s = "4294967295x max\n";
    assert_eq!(get_most_toys(String::from(s)).unwrap(), "4294967295x max\n");
}

#[test]
fn count_out_of_range_rejected() {
    let s = "4294967296x dog\n";
    assert_eq!(
        get_most_toys(String::from(s)),
        Err(String::from("Invalid input string"))
    );
}

#[test]
fn empty_piece_rejected() {
    let s = "1x dog,,2x cat\n";
    assert_eq!(
        get_most_toys(String::from(s)),
        Err(String::from("Invalid input string"))
    );
}

#[test]
fn empty_count_rejected() {
    let s = "x dog\n";
    assert_eq!(
        get_most_toys(String::from(s)),
        Err(String::from("Invalid input string"))
    );
}

#[test]
fn name_keeps_inner_text_after_first_x() {
    // the first `x` separates; later ones belong to the name
    let s = "3x box of rocks\n";
    assert_eq!(get_most_toys(String::from(s)).unwrap(), "3x box of rocks\n");
}
