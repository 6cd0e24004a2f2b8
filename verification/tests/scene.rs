use raytracer::scene::{fields_of_line, indices_of_record, Scene};

fn text_of(rows: Vec<Vec<Vec<char>>>) -> Vec<Vec<String>> {
    rows.into_iter().map(|r| r.into_iter().map(|w| w.into_iter().collect()).collect()).collect()
}

const DIAMOND: &str = "# a diamond\nv 0.0 1.0 0.0\nv 1.0 0.0 0.0\nv 0.0 0.0 1.0\nv -1.0 0.0 0.0\nvn 0.0 1.0 0.0\n\nf 1 2 3\nf 1 3 4\n";

#[test]
fn faces_of_a_small_mesh() {
    let faces = Scene::face_from_txt(&String::from(DIAMOND), 'f');
    assert_eq!(faces, vec![vec![1, 2, 3], vec![1, 3, 4]]);
}

#[test]
fn faces_of_a_text_without_faces() {
    assert_eq!(Scene::face_from_txt(&String::from("v 1 2 3\n"), 'f'), Vec::<Vec<usize>>::new());
    assert_eq!(Scene::face_from_txt(&String::new(), 'f'), Vec::<Vec<usize>>::new());
}

#[test]
fn a_face_may_name_any_number_of_vertices() {
    let faces = Scene::face_from_txt(&String::from("f\nf 7\nf 1 2 3 4 5\r\n  f 9 9 9\nf\t10\u{3000}+11"), 'f');
    assert_eq!(faces, vec![vec![], vec![7], vec![1, 2, 3, 4, 5], vec![10, 11]]);
}

#[test]
fn a_field_that_begins_with_the_symbol_is_left_out() {
    let faces = Scene::face_from_txt(&String::from("f 1 f2 3 ff 4"), 'f');
    assert_eq!(faces, vec![vec![1, 3, 4]]);
    let ones = Scene::face_from_txt(&String::from("1 2 13 31"), '1');
    assert_eq!(ones, vec![vec![2, 31]]);
}

#[test]
fn faces_agree_with_splitting_by_the_standard_library() {
    let text = "o mesh\nv 1 2 3\nf 3 2 1\n\nf 10 20 30 40\n#f 1 2 3\n f 5 6 7\nf 8\t9\r\nfoo 1 2\n";
    let expected: Vec<Vec<usize>> = text
        .split("\n")
        .filter(|line| line.chars().nth(0) == Some('f'))
        .map(|line| {
            line.split_whitespace()
                .filter(|v| v.chars().nth(0).unwrap() != 'f')
                .map(|v| v.parse::<usize>().unwrap())
                .collect()
        })
        .collect();
    assert_eq!(Scene::face_from_txt(&String::from(text), 'f'), expected);
}

#[test]
fn parse_faces_gives_the_faces_or_none() {
    assert_eq!(Scene::parse_faces(&String::from(DIAMOND), 'f'), Some(vec![vec![1, 2, 3], vec![1, 3, 4]]));
    assert_eq!(Scene::parse_faces(&String::from("f 1/1/1 2/2/2 3/3/3\n"), 'f'), None);
    assert_eq!(Scene::parse_faces(&String::from("f 1 2 3\nf 1 -2 3\n"), 'f'), None);
    assert_eq!(Scene::parse_faces(&String::from("f 1 2 x"), 'f'), None);
    assert_eq!(Scene::parse_faces(&String::from("f 1 2 99999999999999999999999999"), 'f'), None);
    assert_eq!(Scene::parse_faces(&String::from("g 1/2 x\n"), 'f'), Some(vec![]));
    assert_eq!(Scene::parse_faces(&String::from(DIAMOND), 'v'), None);
}

#[test]
fn records_of_vertices_keep_their_fields_as_text() {
    let rows = text_of(Scene::records_from_txt(&String::from(DIAMOND), 'v'));
    assert_eq!(
        rows,
        vec![
            vec!["0.0", "1.0", "0.0"],
            vec!["1.0", "0.0", "0.0"],
            vec!["0.0", "0.0", "1.0"],
            vec!["-1.0", "0.0", "0.0"],
            vec!["0.0", "1.0", "0.0"],
        ]
    );
}

#[test]
fn records_are_the_lines_that_begin_with_the_symbol() {
    let rows = text_of(Scene::records_from_txt(&String::from(" v 1\nv\nvv 2\nxv 3\nv 4 v5 6"), 'v'));
    assert_eq!(rows, vec![Vec::<String>::new(), vec!["2".to_string()], vec!["4".to_string(), "6".to_string()]]);
    assert_eq!(text_of(Scene::records_from_txt(&String::new(), 'v')), Vec::<Vec<String>>::new());
}

#[test]
fn fields_of_one_line() {
    let line: Vec<char> = "f  12 f3\t4 ".chars().collect();
    let found: Vec<String> = fields_of_line(&line, 'f').into_iter().map(|w| w.into_iter().collect()).collect();
    assert_eq!(found, vec!["12", "4"]);
}

#[test]
fn indices_of_one_record() {
    let record: Vec<Vec<char>> = vec!["1".chars().collect(), "+20".chars().collect(), "003".chars().collect()];
    assert_eq!(indices_of_record(&record), Some(vec![1, 20, 3]));
    let bad: Vec<Vec<char>> = vec!["1".chars().collect(), "2.0".chars().collect()];
    assert_eq!(indices_of_record(&bad), None);
    assert_eq!(indices_of_record(&Vec::new()), Some(vec![]));
}

#[test]
fn corners_count_from_zero() {
    let faces = vec![vec![1, 2, 3], vec![1, 3, 4], vec![4, 4, 4, 1]];
    assert_eq!(Scene::face_corners(&faces, 4), Some(vec![(0, 1, 2), (0, 2, 3), (3, 3, 3)]));
    assert_eq!(Scene::face_corners(&Vec::new(), 0), Some(vec![]));
}

#[test]
fn corners_need_three_vertices_that_are_there() {
    assert_eq!(Scene::face_corners(&vec![vec![1, 2]], 4), None);
    assert_eq!(Scene::face_corners(&vec![vec![]], 4), None);
    assert_eq!(Scene::face_corners(&vec![vec![0, 1, 2]], 4), None);
    assert_eq!(Scene::face_corners(&vec![vec![1, 2, 5]], 4), None);
    assert_eq!(Scene::face_corners(&vec![vec![1, 2, 3], vec![1, 5, 3]], 4), None);
    assert_eq!(Scene::face_corners(&vec![vec![1, 1, 1]], 0), None);
    assert_eq!(Scene::face_corners(&vec![vec![1, 2, 3, 99]], 3), Some(vec![(0, 1, 2)]));
}
