use movie_neighbors::distance::squared_euclid;
use movie_neighbors::index::{get_rating_index, user_count};
use movie_neighbors::lookup::{find_movie_id_from_name, find_movie_offset_from_id};
use movie_neighbors::model::{Movie, Rating, RecommendError};
use movie_neighbors::recommend::recommend;
use movie_neighbors::scan::{nearest, scan, select_nearest};

fn catalog() -> Vec<Movie> {
    vec![
        Movie::new(1, "A".to_string()),
        Movie::new(2, "B".to_string()),
        Movie::new(3, "C".to_string()),
    ]
}

fn observations() -> Vec<Rating> {
    vec![
        Rating::new(1, 1, 50),
        Rating::new(1, 2, 50),
        Rating::new(2, 1, 10),
        Rating::new(2, 3, 50),
    ]
}

#[test]
fn example_vectors() {
    let rows = get_rating_index(&observations(), &catalog()).unwrap();
    assert_eq!(rows, vec![vec![50, 10], vec![50, 0], vec![0, 50]]);
}

#[test]
fn example_recommendation() {
    let movies = catalog();
    let found = recommend(&movies, &observations(), "A", 2).unwrap();
    let titles: Vec<&str> = found.iter().map(|&p| movies[p].title.as_str()).collect();
    assert_eq!(titles, vec!["A", "B"]);
}

#[test]
fn example_distances() {
    let rows = get_rating_index(&observations(), &catalog()).unwrap();
    assert_eq!(squared_euclid(&rows[0], &rows[1]), 100);
    assert_eq!(squared_euclid(&rows[0], &rows[2]), 4100);
}

#[test]
fn vectors_have_user_count_length() {
    let ratings = vec![Rating::new(3, 2, 40), Rating::new(1, 1, 20)];
    let movies = vec![Movie::new(1, "x".to_string()), Movie::new(2, "y".to_string())];
    let rows = get_rating_index(&ratings, &movies).unwrap();
    assert_eq!(user_count(&ratings), Ok(3));
    assert_eq!(rows, vec![vec![20, 0, 0], vec![0, 0, 40]]);
}

#[test]
fn unrated_movie_is_zero() {
    let mut movies = catalog();
    movies.push(Movie::new(9, "D".to_string()));
    let rows = get_rating_index(&observations(), &movies).unwrap();
    assert_eq!(rows[3], vec![0, 0]);
}

#[test]
fn later_rating_wins() {
    let ratings = vec![Rating::new(1, 1, 30), Rating::new(2, 1, 10), Rating::new(1, 1, 45)];
    let rows = get_rating_index(&ratings, &catalog()).unwrap();
    assert_eq!(rows[0], vec![45, 10]);
}

#[test]
fn nonpositive_users_take_no_slot() {
    let ratings = vec![Rating::new(0, 1, 30), Rating::new(-4, 2, 10)];
    assert_eq!(user_count(&ratings), Ok(0));
    let rows = get_rating_index(&ratings, &catalog()).unwrap();
    assert_eq!(rows, vec![Vec::<u16>::new(), Vec::new(), Vec::new()]);
}

#[test]
fn repeated_identifier_shares_vector() {
    let movies = vec![
        Movie::new(2, "B".to_string()),
        Movie::new(1, "A".to_string()),
        Movie::new(2, "B again".to_string()),
    ];
    let rows = get_rating_index(&observations(), &movies).unwrap();
    assert_eq!(rows, vec![vec![50, 0], vec![50, 10], vec![50, 0]]);
}

#[test]
fn empty_ratings_fail() {
    assert_eq!(user_count(&Vec::new()), Err(RecommendError::EmptyInput));
    assert_eq!(get_rating_index(&Vec::new(), &catalog()), Err(RecommendError::EmptyInput));
    assert_eq!(recommend(&catalog(), &Vec::new(), "A", 2), Err(RecommendError::EmptyInput));
}

#[test]
fn unknown_title_fails() {
    assert_eq!(recommend(&catalog(), &observations(), "Z", 2), Err(RecommendError::NotFound));
    assert_eq!(find_movie_id_from_name("Z", &catalog()), None);
}

#[test]
fn title_lookup_takes_first() {
    let mut movies = catalog();
    movies.push(Movie::new(7, "B".to_string()));
    assert_eq!(find_movie_id_from_name("B", &movies), Some(2));
    assert_eq!(find_movie_id_from_name("C", &movies), Some(3));
}

#[test]
fn offset_lookup() {
    assert_eq!(find_movie_offset_from_id(3, &catalog()), Ok(2));
    assert_eq!(find_movie_offset_from_id(8, &catalog()), Err(RecommendError::NotFound));
}

#[test]
fn distance_is_symmetric() {
    let a = vec![5, 0, 7];
    let b = vec![1, 9, 7];
    assert_eq!(squared_euclid(&a, &b), 97);
    assert_eq!(squared_euclid(&b, &a), 97);
    assert_eq!(squared_euclid(&a, &a), 0);
}

#[test]
fn distance_of_extremes() {
    let a = vec![u16::MAX; 4];
    let b = vec![0u16; 4];
    assert_eq!(squared_euclid(&a, &b), 4 * 65535u128 * 65535u128);
}

#[test]
fn scan_bounded_by_k_and_rows() {
    let d = vec![4u128, 2, 9];
    assert_eq!(select_nearest(&d, 2).len(), 2);
    assert_eq!(select_nearest(&d, 10).len(), 3);
    assert_eq!(select_nearest(&d, 0), Vec::<usize>::new());
    assert_eq!(select_nearest(&Vec::new(), 3), Vec::<usize>::new());
}

#[test]
fn scan_full_orders_every_row() {
    let d = vec![7u128, 3, 7, 0, 5];
    assert_eq!(select_nearest(&d, 5), vec![3, 1, 4, 0, 2]);
}

#[test]
fn scan_ties_in_row_order() {
    let d = vec![2u128, 1, 2, 1];
    assert_eq!(select_nearest(&d, 3), vec![1, 3, 0]);
}

#[test]
fn nearest_rows() {
    let m = vec![vec![10, 20], vec![20, 20], vec![30, 30]];
    assert_eq!(nearest(&m, &vec![10, 10], 1), Ok(vec![0]));
    assert_eq!(nearest(&m, &vec![20, 22], 1), Ok(vec![1]));
    assert_eq!(nearest(&m, &vec![50, 60], 3), Ok(vec![2, 1, 0]));
    assert_eq!(nearest(&Vec::new(), &vec![1], 3), Ok(Vec::new()));
}

#[test]
fn nearest_length_mismatch() {
    let m = vec![vec![10, 20], vec![20, 20, 5]];
    assert_eq!(nearest(&m, &vec![10, 10], 1), Err(RecommendError::InvalidArgument));
    assert_eq!(nearest(&m, &vec![10, 10, 1], 0), Err(RecommendError::InvalidArgument));
}

#[test]
fn scan_with_other_metric() {
    let m = vec![vec![0u16, 10], vec![4, 4], vec![9, 0]];
    let manhattan = |a: &Vec<u16>, b: &Vec<u16>| -> u128 {
        a.iter().zip(b.iter()).map(|(&x, &y)| (x as i64 - y as i64).unsigned_abs() as u128).sum()
    };
    assert_eq!(scan(&m, &vec![0, 0], 3, manhattan), Ok(vec![1, 2, 0]));
    assert_eq!(nearest(&m, &vec![0, 0], 3), Ok(vec![1, 2, 0]));
}
