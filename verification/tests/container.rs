use recochan::dataprovider::{RatingDataProvider, UnitTestDataProvider};
use recochan::ratings::{Anime, RatingContainer, RatingContainerBuilder, User};

fn cells(container: &RatingContainer<f64>) -> Vec<(usize, usize, f64)> {
    container.ratings().iter().map(|r| (r.animeidx, r.useridx, r.rating)).collect()
}

fn anime_ids(container: &RatingContainer<f64>) -> Vec<u64> {
    container.animes().iter().map(|a| a.id).collect()
}

fn user_ids(container: &RatingContainer<f64>) -> Vec<u64> {
    container.users().iter().map(|u| u.id).collect()
}

fn four_ratings() -> RatingContainer<f64> {
    let mut builder = RatingContainerBuilder::new();
    builder.add_rating(2, 11, 2.0);
    builder.add_rating(1, 10, 5.0);
    builder.add_rating(2, 10, 3.0);
    builder.add_rating(1, 11, 4.0);
    builder.build()
}

#[test]
fn anime_and_user_keep_their_id() {
    assert_eq!(Anime::new(7).id, 7);
    assert_eq!(User::new(u64::MAX).id, u64::MAX);
}

#[test]
fn ids_are_listed_once_and_ascending() {
    let container = four_ratings();
    assert_eq!(anime_ids(&container), vec![1, 2]);
    assert_eq!(user_ids(&container), vec![10, 11]);
}

#[test]
fn ids_added_in_descending_order_come_out_ascending() {
    let mut builder = RatingContainerBuilder::new();
    for id in (1..=50u64).rev() {
        builder.add_rating(id, 1000 - id, 1.0);
    }
    let container = builder.build();
    assert_eq!(anime_ids(&container), (1..=50u64).collect::<Vec<_>>());
    assert_eq!(user_ids(&container), (950..=999u64).collect::<Vec<_>>());
}

#[test]
fn ratings_are_ordered_by_row_then_column() {
    let container = four_ratings();
    assert_eq!(cells(&container), vec![(0, 0, 5.0), (0, 1, 4.0), (1, 0, 3.0), (1, 1, 2.0)]);
}

#[test]
fn every_rating_keeps_its_ids_and_value() {
    let given = vec![(30u64, 7u64, 1.5), (10, 9, 2.5), (20, 8, 3.5), (10, 7, 4.5), (30, 9, 0.5)];
    let mut builder = RatingContainerBuilder::new();
    for (a, u, r) in &given {
        builder.add_rating(*a, *u, *r);
    }
    let container = builder.build();
    let mut found: Vec<(u64, u64, f64)> = container
        .ratings()
        .iter()
        .map(|r| (container.animes()[r.animeidx].id, container.users()[r.useridx].id, r.rating))
        .collect();
    let mut expected = given.clone();
    found.sort_by(|a, b| a.partial_cmp(b).unwrap());
    expected.sort_by(|a, b| a.partial_cmp(b).unwrap());
    assert_eq!(found, expected);
}

#[test]
fn a_pair_rated_twice_is_kept_twice() {
    let mut builder = RatingContainerBuilder::new();
    builder.add_rating(5, 6, 1.0);
    builder.add_rating(5, 6, 1.0);
    let container = builder.build();
    assert_eq!(anime_ids(&container), vec![5]);
    assert_eq!(user_ids(&container), vec![6]);
    assert_eq!(cells(&container), vec![(0, 0, 1.0), (0, 0, 1.0)]);
}

#[test]
fn lookups_find_known_ids_only() {
    let container = four_ratings();
    assert_eq!(container.anime2row(1), Some(0));
    assert_eq!(container.anime2row(2), Some(1));
    assert_eq!(container.anime2row(3), None);
    assert_eq!(container.user2column(10), Some(0));
    assert_eq!(container.user2column(11), Some(1));
    assert_eq!(container.user2column(1), None);
    assert_eq!(container.row2anime(0), Some(1));
    assert_eq!(container.row2anime(1), Some(2));
    assert_eq!(container.row2anime(2), None);
    assert_eq!(container.column2user(0), Some(10));
    assert_eq!(container.column2user(1), Some(11));
    assert_eq!(container.column2user(2), None);
}

#[test]
fn lookups_undo_each_other() {
    let mut builder = RatingContainerBuilder::new();
    for (a, u) in [(9u64, 4u64), (3, 8), (6, 2), (3, 4), (12, 16)] {
        builder.add_rating(a, u, 0.0);
    }
    let container = builder.build();
    for row in 0..container.animes().len() {
        let id = container.row2anime(row).unwrap();
        assert_eq!(container.anime2row(id), Some(row));
    }
    for column in 0..container.users().len() {
        let id = container.column2user(column).unwrap();
        assert_eq!(container.user2column(id), Some(column));
    }
    for id in [3u64, 6, 9, 12] {
        let row = container.anime2row(id).unwrap();
        assert_eq!(container.row2anime(row), Some(id));
    }
    for id in [2u64, 4, 8, 16] {
        let column = container.user2column(id).unwrap();
        assert_eq!(container.column2user(column), Some(id));
    }
}

#[test]
fn an_empty_builder_gives_an_empty_container() {
    let container: RatingContainer<f64> = RatingContainerBuilder::new().build();
    assert!(container.ratings().is_empty());
    assert!(container.animes().is_empty());
    assert!(container.users().is_empty());
    assert_eq!(container.anime2row(0), None);
    assert_eq!(container.row2anime(0), None);
    assert_eq!(container.user2column(0), None);
    assert_eq!(container.column2user(0), None);
}

#[test]
fn the_given_ratings_are_provided() {
    let provider = UnitTestDataProvider::new(vec![(1u64, 10u64, 5.0), (1, 11, 4.0), (2, 10, 3.0), (2, 11, 2.0)]);
    let container = provider.get();
    assert_eq!(anime_ids(&container), vec![1, 2]);
    assert_eq!(user_ids(&container), vec![10, 11]);
    assert_eq!(cells(&container), vec![(0, 0, 5.0), (0, 1, 4.0), (1, 0, 3.0), (1, 1, 2.0)]);
    let again = provider.get();
    assert_eq!(cells(&again), cells(&container));
}

#[test]
fn no_ratings_are_provided_as_an_empty_container() {
    let provider: UnitTestDataProvider<f64> = UnitTestDataProvider::new(Vec::new());
    let container = provider.get();
    assert!(container.ratings().is_empty());
    assert!(container.animes().is_empty());
    assert!(container.users().is_empty());
}
