use ataxx::eval::static_eval_once;
use ataxx::limit::SearchLimiter;
use ataxx::nnue::NnueState;
use ataxx::position::Position;
use ataxx::rng::{mix, Jsf64Rng};
use ataxx::search::{SearchContext, Searcher};
use ataxx::square::{Color, Square, SCORE_WIN};

#[test]
fn shallow_search_finds_a_legal_move() {
    let mut searcher = Searcher::new();
    let pos = Position::startpos();
    let check = pos.clone();

    let (reports, best, score) = searcher.start_search(pos, SearchLimiter::infinite(), 2);

    assert!(!reports.is_empty());
    assert!(check.is_legal(best));
    assert!(score > -SCORE_WIN && score < SCORE_WIN);
    for r in &reports {
        assert!(check.is_legal(r.best_move));
        assert!(r.depth >= 1);
    }
}

#[test]
fn search_leaves_the_position_untouched() {
    let pos = Position::from_fen("x5o/7/2-1-2/7/2-1-2/7/o5x x 0 1").unwrap();
    let key0 = pos.key();
    let fen_red = pos.red_occupancy().raw();

    let mut searcher = Searcher::new();
    let mut ctx = SearchContext::new(pos);
    ctx.nnue_state.reset(&ctx.pos);

    let _ = searcher.run_datagen_search(&mut ctx, SearchLimiter::fixed_nodes(500), 3);

    assert_eq!(ctx.pos.key(), key0);
    assert_eq!(ctx.pos.red_occupancy().raw(), fen_red);
}

#[test]
fn seed_mixer_exact_values() {
    assert_eq!(mix(0), 0);
    assert_eq!(mix(1), 0xb456bcfc34c2cb2c);
    assert_eq!(mix(0x123456789abcdef0), 0x18b8c062f6f42398);
}

#[test]
fn bounded_draw_of_zero_keeps_the_state() {
    let mut a = Jsf64Rng::new(7);
    let mut b = Jsf64Rng::new(7);
    assert_eq!(a.next_u32_bounded(0), 0);
    assert_eq!(a.next_u64(), b.next_u64());
}

#[test]
fn evaluation_is_deterministic_and_bounded() {
    let pos = Position::startpos();
    let a = static_eval_once(&pos);
    let b = static_eval_once(&pos);
    assert_eq!(a, b);
    assert!(a > -SCORE_WIN && a < SCORE_WIN);
}

#[test]
fn evaluator_stack_push_pop() {
    let pos = Position::startpos();
    let mut nnue = NnueState::new();
    nnue.reset(&pos);
    let before = nnue.evaluate(pos.side_to_move());
    nnue.push();
    nnue.push();
    assert!(nnue.pop());
    assert!(nnue.pop());
    let after = nnue.evaluate(pos.side_to_move());
    assert_eq!(before, after);
}

#[test]
fn push_mutate_pop_restores_the_evaluator() {
    let pos = Position::startpos();
    let mut nnue = NnueState::new();
    nnue.reset(&pos);
    let before = nnue.evaluate(pos.side_to_move());
    nnue.push();
    nnue.activate_feature(Color::red(), Square::from_coords(3, 3));
    nnue.deactivate_feature(Color::blue(), Square::from_coords(0, 0));
    let mutated = nnue.evaluate(pos.side_to_move());
    assert!(nnue.pop());
    let after = nnue.evaluate(pos.side_to_move());
    assert_eq!(before, after);
    assert_ne!(before, mutated);
}
