use ledger_core::school::School;

#[test]
fn grade_lists_names_sorted() {
    let mut mta = School::new();
    mta.add("binh".to_string(), 2);
    mta.add("minh".to_string(), 6);
    mta.add("an".to_string(), 1);
    mta.add("long".to_string(), 1);
    assert_eq!(mta.grade(1), vec!["an".to_string(), "long".to_string()]);
    assert_eq!(mta.grade(2), vec!["binh".to_string()]);
    assert_eq!(mta.grade(3), Vec::<String>::new());
}

#[test]
fn grades_are_distinct_and_sorted() {
    let mut s = School::new();
    s.add("binh".to_string(), 2);
    s.add("minh".to_string(), 6);
    s.add("an".to_string(), 1);
    s.add("long".to_string(), 1);
    assert_eq!(s.grades(), vec![1, 2, 6]);
}

#[test]
fn add_overwrites_an_existing_name() {
    let mut s = School::new();
    s.add("an".to_string(), 1);
    s.add("an".to_string(), 4);
    assert_eq!(s.grades(), vec![4]);
    assert_eq!(s.grade(1), Vec::<String>::new());
    assert_eq!(s.grade(4), vec!["an".to_string()]);
}

#[test]
fn find_student_keeps_roster_order() {
    let mut s = School::new();
    s.add("c".to_string(), 1);
    s.add("a".to_string(), 1);
    s.add("b".to_string(), 2);
    let found = s.find_student(1);
    assert_eq!(found, vec![("c".to_string(), 1), ("a".to_string(), 1)]);
}

#[test]
fn empty_school_has_no_grades() {
    let s = School::new();
    assert_eq!(s.grades(), Vec::<u32>::new());
    assert_eq!(s.grade(1), Vec::<String>::new());
    assert_eq!(s.find_student(1), Vec::<(String, u32)>::new());
}

#[test]
fn names_sort_by_scalar_with_prefix_first() {
    let mut s = School::new();
    s.add("b".to_string(), 1);
    s.add("a".to_string(), 1);
    s.add("ab".to_string(), 1);
    assert_eq!(
        s.grade(1),
        vec!["a".to_string(), "ab".to_string(), "b".to_string()]
    );
}
