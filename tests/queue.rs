use tetris::{Piece, PieceQueue, Tetris};

const SHAPES: [Piece; 7] = [
    Piece::T,
    Piece::I,
    Piece::J,
    Piece::L,
    Piece::S,
    Piece::Z,
    Piece::O,
];

fn is_bag(window: &[Piece]) -> bool {
    window.len() == 7 && SHAPES.iter().all(|p| window.iter().filter(|q| *q == p).count() == 1)
}

#[test]
fn new_queue_holds_two_bags() {
    let q = PieceQueue::new(11);
    let all = q.preview(100);
    assert_eq!(all.len(), 14);
    assert!(is_bag(&all[0..7]));
    assert!(is_bag(&all[7..14]));
}

#[test]
fn preview_is_short_when_asked_for_more() {
    let q = PieceQueue::new(11);
    assert_eq!(q.preview(3).len(), 3);
    assert_eq!(q.preview(0).len(), 0);
    assert_eq!(q.preview(50).len(), 14);
}

#[test]
fn popping_keeps_bags_whole() {
    let mut q = PieceQueue::new(11);
    let mut taken = Vec::new();
    for _ in 0..70 {
        let before = q.preview(100);
        let p = q.pop_next();
        assert_eq!(p, before[0]);
        assert!(q.preview(100).len() >= 7);
        taken.push(p);
    }
    for chunk in taken.chunks(7) {
        assert!(is_bag(chunk));
    }
}

#[test]
fn bags_are_shuffled() {
    let mut orders = Vec::new();
    for seed in 0..20u64 {
        let q = PieceQueue::new(seed);
        orders.push(q.preview(7));
    }
    assert!(orders.iter().any(|o| o.as_slice() != SHAPES.as_slice()));
}

#[test]
fn game_queue_windows_are_bags() {
    let mut game = Tetris::new(7);
    game.start(0);
    let mut seen = vec![game.active_piece()];
    for t in 1..50u64 {
        game.harddrop(t);
        if game.state() != tetris::State::Playing {
            break;
        }
        seen.push(game.active_piece());
    }
    for chunk in seen.chunks(7) {
        if chunk.len() == 7 {
            assert!(is_bag(chunk));
        }
    }
    let q = game.get_queue();
    assert!(q.iter().all(|p| *p != Piece::Empty));
}

#[test]
fn same_seed_deals_same_pieces() {
    let mut a = PieceQueue::new(42);
    let mut b = PieceQueue::new(42);
    for _ in 0..30 {
        assert_eq!(a.pop_next(), b.pop_next());
    }
}
