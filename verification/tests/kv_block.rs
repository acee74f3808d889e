use block_pool::kv::{KvBlock, KvBlockConfig};
use block_pool::text::decimal_text;
use block_pool::tokens::TokenBlock;

#[test]
fn reuses_only_rise() {
    let mut block = KvBlock::new(TokenBlock::new(7, None));
    assert_eq!(block.remaining_reuses(), 0);
    block.update_remaining_reuses(4);
    assert_eq!(block.remaining_reuses(), 4);
    block.update_remaining_reuses(2);
    assert_eq!(block.remaining_reuses(), 4);
    block.update_remaining_reuses(9);
    assert_eq!(block.remaining_reuses(), 9);
}

#[test]
fn reset_restores_the_initial_state() {
    let mut block = KvBlock::new(TokenBlock::new(7, Some(6)));
    block.update_remaining_reuses(4);
    block.update_token_block(TokenBlock::new(8, Some(7)));
    assert_eq!(block.token_block(), TokenBlock::new(8, Some(7)));
    assert_eq!(block.remaining_reuses(), 4);
    block.on_return();
    assert_eq!(block.remaining_reuses(), 4);
    block.reset();
    assert_eq!(block, KvBlock::default());
    assert_eq!(block.token_block(), TokenBlock::new(0, None));
    let _config = KvBlockConfig {};
}

#[test]
fn numbers_are_written_in_decimal() {
    assert_eq!(decimal_text(0), "0");
    assert_eq!(decimal_text(9), "9");
    assert_eq!(decimal_text(10), "10");
    assert_eq!(decimal_text(8675309), "8675309");
    assert_eq!(decimal_text(u64::MAX), "18446744073709551615");
}

#[test]
fn reuses_can_be_updated_in_any_order() {
    let mut one = KvBlock::new(TokenBlock::new(7, None));
    let mut other = KvBlock::new(TokenBlock::new(7, None));
    one.update_remaining_reuses(3);
    one.update_remaining_reuses(5);
    other.update_remaining_reuses(5);
    other.update_remaining_reuses(3);
    other.update_remaining_reuses(3);
    assert_eq!(one, other);
    assert_eq!(one.remaining_reuses(), 5);
}
