use gartic_on_demand::assets::{AssetKind, Image, ImageKind, ImageRepository};
use gartic_on_demand::state::EngineError;

const NOW: i64 = 1000;

fn draw_this(author: u64) -> Image {
    Image::new(ImageKind::Asset(AssetKind::DrawThis), author, NOW)
}

#[test]
fn image_create_twice_is_a_conflict() {
    let mut repo = ImageRepository::new();

    repo.create(1, draw_this(0)).unwrap();
    let again = repo.create(1, draw_this(0));

    assert_eq!(again, Err(EngineError::StateConflict));
    assert_eq!(repo.entries.len(), 1);
}

#[test]
fn image_delete_then_missing() {
    let mut repo = ImageRepository::new();
    repo.create(1, draw_this(0)).unwrap();

    repo.delete(1).unwrap();
    let again = repo.delete(1);

    assert_eq!(again, Err(EngineError::NotFound));
    assert!(repo.entries.is_empty());
}

#[test]
fn image_count_by_kind() {
    let mut repo = ImageRepository::new();
    repo.create(1, draw_this(0)).unwrap();
    repo.create(2, Image::new(ImageKind::Asset(AssetKind::InConstruction), 0, NOW)).unwrap();
    repo.create(3, draw_this(0)).unwrap();
    repo.create(4, Image::new(ImageKind::Submission, 0, NOW)).unwrap();

    assert_eq!(repo.count(ImageKind::Asset(AssetKind::DrawThis)), 2);
    assert_eq!(repo.count(ImageKind::Asset(AssetKind::InConstruction)), 1);
    assert_eq!(repo.count(ImageKind::Submission), 1);
}

#[test]
fn image_random_picks_distinct_entries_of_the_kind() {
    let mut repo = ImageRepository::new();
    for id in 0..6u64 {
        repo.create(id, draw_this(0)).unwrap();
    }
    repo.create(100, Image::new(ImageKind::Submission, 0, NOW)).unwrap();

    for seed in 0..5u64 {
        let picks = repo.random(ImageKind::Asset(AssetKind::DrawThis), 4, seed);
        assert_eq!(picks.len(), 4);
        for (i, p) in picks.iter().enumerate() {
            assert_eq!(
                repo.entries[*p].image.kind,
                ImageKind::Asset(AssetKind::DrawThis)
            );
            for q in picks.iter().skip(i + 1) {
                assert_ne!(p, q);
            }
        }
    }

    let few = repo.random(ImageKind::Submission, 4, 9);
    assert_eq!(few.len(), 1);
}

#[test]
fn image_get_pages_through_a_kind() {
    let mut repo = ImageRepository::new();
    for id in 0..5u64 {
        repo.create(id, draw_this(0)).unwrap();
    }

    let first = repo.get(ImageKind::Asset(AssetKind::DrawThis), 2, 0);
    let second = repo.get(ImageKind::Asset(AssetKind::DrawThis), 2, 2);
    let tail = repo.get(ImageKind::Asset(AssetKind::DrawThis), 10, 4);
    let past = repo.get(ImageKind::Asset(AssetKind::DrawThis), 2, 9);

    assert_eq!(first.len(), 2);
    assert_eq!(second.len(), 2);
    assert_eq!(tail.len(), 1);
    assert!(past.is_empty());
    assert_eq!(repo.entries[first[0]].id, 0);
    assert_eq!(repo.entries[second[0]].id, 2);
    assert_eq!(repo.entries[tail[0]].id, 4);
}
