use gh_pfp::color::Color;
use gh_pfp::generate::{
    random_picture, scaled_square_length, Deck, DEFAULT_SQUARE_LENGTH, MAX_SQUARES, MIN_SQUARES,
    PAINTABLE_SQUARES,
};
use gh_pfp::model::{is_renderable, GhPfp};

const WHITE: Color = Color { r: 255, g: 255, b: 255 };

fn painted_colors(picture: &GhPfp) -> Vec<Color> {
    let mut colors = Vec::new();
    for column in 0..3 {
        for row in 0..5 {
            let color = picture.get_square((column, row));
            if color != WHITE {
                colors.push(color);
            }
        }
    }
    colors
}

fn is_symmetric(picture: &GhPfp) -> bool {
    (0..5).all(|column| {
        (0..5).all(|row| picture.get_square((column, row)) == picture.get_square((4 - column, row)))
    })
}

#[test]
fn policy_constants() {
    assert_eq!(MIN_SQUARES, 4);
    assert_eq!(MAX_SQUARES, 11);
    assert_eq!(PAINTABLE_SQUARES, 15);
    assert_eq!(DEFAULT_SQUARE_LENGTH, 70);
}

#[test]
fn random_pictures_in_one_color() {
    let mut rng = rand::thread_rng();
    let mut counts = Vec::new();
    for _ in 0..300 {
        let picture = random_picture(&mut rng, false);
        assert!(is_symmetric(&picture));
        let colors = painted_colors(&picture);
        // a picture painted in white shows no square at all
        assert!(colors.is_empty() || (MIN_SQUARES..=MAX_SQUARES).contains(&colors.len()));
        assert!(colors.iter().all(|color| *color == colors[0]));
        counts.push(colors.len());
    }
    assert!(counts.iter().any(|count| *count != counts[0]));
}

#[test]
fn random_rainbow_pictures() {
    let mut rng = rand::thread_rng();
    let mut in_range = 0;
    let mut many_colored = 0;
    for _ in 0..300 {
        let picture = random_picture(&mut rng, true);
        assert!(is_symmetric(&picture));
        let colors = painted_colors(&picture);
        assert!(colors.len() <= MAX_SQUARES);
        if colors.len() >= MIN_SQUARES {
            in_range += 1;
        }
        if colors.iter().any(|color| *color != colors[0]) {
            many_colored += 1;
        }
    }
    // a stroke in white, one chance in sixteen million, hides a square
    assert!(in_range >= 299);
    assert!(many_colored >= 299);
}

#[test]
fn random_pictures_have_no_default_color() {
    let mut rng = rand::thread_rng();
    let mut picture = random_picture(&mut rng, false);
    assert!(picture.set_square((0, 0), None).is_err());
}

#[test]
fn random_pictures_differ() {
    let mut rng = rand::thread_rng();
    let first = painted_colors(&random_picture(&mut rng, true));
    let differs = (0..20).any(|_| painted_colors(&random_picture(&mut rng, true)) != first);
    assert!(differs);
}

#[test]
fn random_pictures_can_be_drawn() {
    let mut rng = rand::thread_rng();
    let picture = random_picture(&mut rng, true);
    assert!(is_renderable(10));
    let image = picture.to_image(10);
    for column in 0..5u32 {
        for row in 0..5u32 {
            let expected = picture.get_square((column as usize, row as usize));
            assert_eq!(image.get_pixel(10 + 10 * column, 10 + 10 * row), Some(expected));
        }
    }
}

#[test]
fn fresh_deck_deals_in_order() {
    let mut deck = Deck::new();
    assert_eq!(deck.left(), 15);
    for square in 0..15usize {
        assert_eq!(deck.deal(0), (square / 5, square % 5));
        assert_eq!(deck.left(), 14 - square);
    }
}

#[test]
fn dealt_square_is_replaced_by_the_first_left() {
    let mut deck = Deck::new();
    // square 7 leaves, square 0 takes its place
    assert_eq!(deck.deal(7), (1, 2));
    assert_eq!(deck.left(), 14);
    // the first left is now square 1
    assert_eq!(deck.deal(0), (0, 1));
    // two dealt; five places on lies what was at place 7: square 0
    assert_eq!(deck.deal(5), (0, 0));
    // square 2 took the place of square 0 at place 7; first left is square 3
    assert_eq!(deck.deal(0), (0, 3));
    assert_eq!(deck.deal(3), (0, 2));
    assert_eq!(deck.left(), 10);
}

#[test]
fn last_square_of_the_deck() {
    let mut deck = Deck::new();
    assert_eq!(deck.deal(14), (2, 4));
    assert_eq!(deck.deal(13), (0, 0));
    assert_eq!(deck.deal(12), (0, 1));
}

#[test]
fn deck_deals_every_square_once() {
    let mut seed: u32 = 99;
    for _ in 0..50 {
        let mut deck = Deck::new();
        let mut seen = Vec::new();
        while deck.left() > 0 {
            seed = seed.wrapping_mul(1664525).wrapping_add(1013904223);
            let pick = (seed >> 16) as usize % deck.left();
            let position = deck.deal(pick);
            assert!(position.0 <= 2 && position.1 < 5);
            assert!(!seen.contains(&position));
            seen.push(position);
        }
        assert_eq!(seen.len(), 15);
    }
}

#[test]
fn square_lengths_by_scale() {
    assert_eq!(scaled_square_length(0), None);
    assert_eq!(scaled_square_length(1), Some(70));
    assert_eq!(scaled_square_length(2), Some(140));
    assert_eq!(scaled_square_length(255), Some(17850));
}
