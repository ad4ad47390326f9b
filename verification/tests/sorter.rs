use bicycle_book::sorter::sort;
use bicycle_book::sorter::sort_by;
use bicycle_book::sorter::SortOrder::Ascending;
use bicycle_book::sorter::SortOrder::Descending;

#[derive(Debug, PartialEq)]
struct Student {
    first_name: String,
    last_name: String,
    age: u8,
}

impl Student {
    fn new(first_name: &str, last_name: &str, age: u8) -> Student {
        Student {
            first_name: first_name.to_string(),
            last_name: last_name.to_string(),
            age,
        }
    }
}

fn new_u32_vec(n: usize) -> Vec<u32> {
    // A fixed-seed linear congruential generator, so the large inputs are
    // arbitrary but reproducible.
    let mut state: u64 = 0x2545_F491_4F6C_DD1D;
    let mut v = Vec::with_capacity(n);
    for _ in 0..n {
        state = state
            .wrapping_mul(6364136223846793005)
            .wrapping_add(1442695040888963407);
        v.push((state >> 32) as u32);
    }
    v
}

fn is_sorted_ascending(x: &Vec<u32>) -> bool {
    x.windows(2).all(|pair| pair[0] <= pair[1])
}

fn is_sorted_descending(x: &Vec<u32>) -> bool {
    x.windows(2).all(|pair| pair[0] >= pair[1])
}

#[test]
fn sort_students_by_age_ascending() {
    let taro = Student::new("Taro", "Yamada", 16);
    let hanako = Student::new("Hanako", "Yamada", 14);
    let kyoko = Student::new("Kyoko", "Ito", 15);
    let ryosuke = Student::new("Ryosuke", "Hayashi", 17);
    let mut x = vec![&taro, &hanako, &kyoko, &ryosuke];
    let expected = vec![&hanako, &kyoko, &taro, &ryosuke];
    assert_eq!(sort_by(&mut x, &|a, b| a.age.cmp(&b.age)), Ok(()));
    assert_eq!(x, expected);
}

#[test]
fn sort_studens_by_name_ascending() {
    let taro = Student::new("Taro", "Yamada", 16);
    let hanako = Student::new("Hanako", "Yamada", 14);
    let kyoko = Student::new("Kyoko", "Ito", 15);
    let ryosuke = Student::new("Ryosuke", "Hayashi", 17);
    let mut x = vec![&taro, &hanako, &kyoko, &ryosuke];
    let expected = vec![&ryosuke, &kyoko, &hanako, &taro];
    assert_eq!(
        sort_by(&mut x, &|a, b| a
            .last_name
            .cmp(&b.last_name)
            .then_with(|| a.first_name.cmp(&b.first_name))),
        Ok(())
    );
    assert_eq!(x, expected);
}

#[test]
fn sort_u32_ascending() {
    let mut x: Vec<u32> = vec![10, 30, 11, 20, 4, 330, 21, 110];
    assert_eq!(sort(&mut x, &Ascending), Ok(()));
    assert_eq!(x, vec![4, 10, 11, 20, 21, 30, 110, 330]);
}

#[test]
fn sort_u32_descending() {
    let mut x: Vec<u32> = vec![10, 30, 11, 20, 4, 330, 21, 110];
    assert_eq!(sort(&mut x, &Descending), Ok(()));
    assert_eq!(x, vec![330, 110, 30, 21, 20, 11, 10, 4]);
}

#[test]
fn sort_str_acending() {
    let mut x = vec![
        "Rust",
        "is",
        "fast",
        "and",
        "memory efficient",
        "with",
        "no",
        "GC",
    ];
    assert_eq!(sort(&mut x, &Ascending), Ok(()));
    assert_eq!(
        x,
        vec![
            "GC",
            "Rust",
            "and",
            "fast",
            "is",
            "memory efficient",
            "no",
            "with"
        ]
    );
}

#[test]
fn sort_str_descending() {
    let mut x = vec![
        "Rust",
        "is",
        "fast",
        "and",
        "memory efficient",
        "with",
        "no",
        "GC",
    ];
    assert_eq!(sort(&mut x, &Descending), Ok(()));
    assert_eq!(
        x,
        vec![
            "with",
            "no",
            "memory efficient",
            "is",
            "fast",
            "and",
            "Rust",
            "GC"
        ]
    );
}

#[test]
fn sort_to_fail() {
    let mut x = vec![10, 30, 11];
    assert!(sort(&mut x, &Ascending).is_err());
}

#[test]
fn sort_u32_large() {
    {
        let mut x = new_u32_vec(65536);
        assert_eq!(sort(&mut x, &Ascending), Ok(()));
        assert!(is_sorted_ascending(&x));
    }
    {
        let mut x = new_u32_vec(65536);
        assert_eq!(sort(&mut x, &Descending), Ok(()));
        assert!(is_sorted_descending(&x));
    }
}

#[test]
fn a_bad_length_is_rejected_with_the_exact_message() {
    let mut x = vec![10, 30, 11];
    assert_eq!(
        sort(&mut x, &Ascending),
        Err("The length of x is not a power of two. (x.len(): 3".to_string())
    );
    // The input is left exactly as it was.
    assert_eq!(x, vec![10, 30, 11]);

    let mut y: Vec<u32> = (0..12).collect();
    assert_eq!(
        sort(&mut y, &Descending),
        Err("The length of x is not a power of two. (x.len(): 12".to_string())
    );
}

#[test]
fn empty_and_singleton_inputs() {
    // Zero is not a power of two; one is.
    let mut empty: Vec<u32> = vec![];
    assert!(sort(&mut empty, &Ascending).is_err());
    let mut one = vec![42u32];
    assert_eq!(sort(&mut one, &Ascending), Ok(()));
    assert_eq!(one, vec![42]);
}

#[test]
fn equal_keys_survive_sorting() {
    let mut x: Vec<u32> = vec![5, 1, 5, 1, 5, 1, 5, 1];
    assert_eq!(sort(&mut x, &Ascending), Ok(()));
    assert_eq!(x, vec![1, 1, 1, 1, 5, 5, 5, 5]);
}
