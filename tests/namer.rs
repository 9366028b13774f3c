use warp_fs::namer::{available_name, candidate_name};

fn names(v: &[&str]) -> Vec<String> {
    v.iter().map(|s| s.to_string()).collect()
}

#[test]
fn free_name_is_kept() {
    assert_eq!(available_name("photo.jpg", &names(&[])), "photo.jpg");
}

#[test]
fn second_name_gets_first_suffix() {
    assert_eq!(available_name("photo.jpg", &names(&["photo.jpg"])), "photo_1.jpg");
}

#[test]
fn third_name_gets_second_suffix() {
    assert_eq!(
        available_name("photo.jpg", &names(&["photo.jpg", "photo_1.jpg"])),
        "photo_2.jpg"
    );
}

#[test]
fn unrelated_names_do_not_count() {
    assert_eq!(
        available_name("photo.jpg", &names(&["photo.png", "photo_2.jpg", "other"])),
        "photo.jpg"
    );
}

#[test]
fn gap_in_suffixes_is_filled() {
    assert_eq!(
        available_name("photo.jpg", &names(&["photo.jpg", "photo_2.jpg"])),
        "photo_1.jpg"
    );
}

#[test]
fn name_without_extension() {
    assert_eq!(available_name("README", &names(&["README"])), "README_1");
}

#[test]
fn leading_dot_name_has_no_extension() {
    assert_eq!(available_name(".bashrc", &names(&[".bashrc"])), ".bashrc_1");
}

#[test]
fn only_last_extension_moves() {
    assert_eq!(available_name("a.tar.gz", &names(&["a.tar.gz"])), "a.tar_1.gz");
}

#[test]
fn trailing_dot_keeps_empty_extension() {
    assert_eq!(available_name("a.", &names(&["a."])), "a_1.");
}

#[test]
fn candidates_count_in_decimal() {
    assert_eq!(candidate_name("photo.jpg", 0), "photo.jpg");
    assert_eq!(candidate_name("photo.jpg", 7), "photo_7.jpg");
    assert_eq!(candidate_name("photo.jpg", 12), "photo_12.jpg");
    assert_eq!(candidate_name("photo.jpg", 1090), "photo_1090.jpg");
}

#[test]
fn many_collisions_are_passed_over() {
    let mut taken = names(&["f.txt"]);
    for i in 1..25 {
        taken.push(format!("f_{}.txt", i));
    }
    assert_eq!(available_name("f.txt", &taken), "f_25.txt");
}
