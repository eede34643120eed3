use orderbook::{settlement_result, Address, Amount, Book, BookError, Order, OrderSide};

fn trader(n: u8) -> Address {
    let mut b = [0u8; 20];
    b[19] = n;
    Address::from_bytes(b)
}

fn order(side: OrderSide, price: u64, qty: u64, ts: i64) -> Order {
    Order::new(trader(ts as u8), Address::zero(), side, Amount::from_u64(price), Amount::from_u64(qty), ts, vec![])
}

fn reference_book() -> Book {
    let mut book = Book::new(Address::zero());
    let mut ts: i64 = 1;
    for (p, q) in [(95u64, 10u64), (94, 20), (93, 5), (92, 10), (91, 15)] {
        book.submit(order(OrderSide::Bid, p, q, ts)).unwrap();
        ts += 1;
    }
    for (p, q) in [(100u64, 10u64), (99, 2), (98, 35), (97, 15), (96, 5)] {
        book.submit(order(OrderSide::Ask, p, q, ts)).unwrap();
        ts += 1;
    }
    book
}

#[test]
fn empty_book_has_no_depth() {
    let book = Book::new(trader(7));
    assert_eq!(book.depth(), (0, 0));
    assert_eq!(book.market(), &trader(7));
    assert!(book.bids().peek_best().is_none());
    assert!(book.asks().is_empty());
}

#[test]
fn depth_read_twice_is_the_same() {
    let book = reference_book();
    assert_eq!(book.depth(), book.depth());
    assert_eq!(book.depth(), (5, 5));
}

#[test]
fn ladders_are_best_first() {
    let book = reference_book();
    assert_eq!(book.bids().peek_best().unwrap().price(), Amount::from_u64(95));
    assert_eq!(book.asks().peek_best().unwrap().price(), Amount::from_u64(96));
    assert_eq!(book.bids().side(), OrderSide::Bid);
    assert_eq!(book.asks().len(), 5);
}

#[test]
fn exact_fill_removes_resting_ask() {
    let mut book = reference_book();
    let out = book.submit(order(OrderSide::Bid, 96, 5, 20)).unwrap();
    assert_eq!(book.depth(), (5, 4));
    assert_eq!(out.fills.len(), 1);
    assert_eq!(out.fills[0].quantity, Amount::from_u64(5));
    assert_eq!(out.fills[0].price, Amount::from_u64(96));
    assert_eq!(out.fills[0].maker_remaining, Amount::zero());
    assert_eq!(out.remainder, Amount::zero());
    assert_eq!(book.asks().peek_best().unwrap().price(), Amount::from_u64(97));
}

#[test]
fn partial_fill_keeps_resting_ask_in_place() {
    let mut book = reference_book();
    let out = book.submit(order(OrderSide::Bid, 96, 3, 20)).unwrap();
    assert_eq!(book.depth(), (5, 5));
    assert_eq!(out.fills[0].maker_remaining, Amount::from_u64(2));
    let best = book.asks().peek_best().unwrap();
    assert_eq!(best.price(), Amount::from_u64(96));
    assert_eq!(best.quantity(), Amount::from_u64(2));
    assert_eq!(best.timestamp(), 10);
}

#[test]
fn exact_fill_removes_resting_bid() {
    let mut book = reference_book();
    book.submit(order(OrderSide::Ask, 95, 10, 20)).unwrap();
    assert_eq!(book.depth(), (4, 5));
    assert_eq!(book.bids().peek_best().unwrap().price(), Amount::from_u64(94));
}

#[test]
fn deep_buy_walks_the_asks() {
    let mut book = reference_book();
    let out = book.submit(order(OrderSide::Bid, 99, 42, 20)).unwrap();
    assert_eq!(book.depth(), (5, 3));
    let traded: Vec<(u128, u128)> = out.fills.iter().map(|f| (f.price.lo, f.quantity.lo)).collect();
    assert_eq!(traded, vec![(96, 5), (97, 15), (98, 22)]);
    assert_eq!(out.remainder, Amount::zero());
    let best = book.asks().peek_best().unwrap();
    assert_eq!(best.price(), Amount::from_u64(98));
    assert_eq!(best.quantity(), Amount::from_u64(13));
}

#[test]
fn deep_buy_stops_at_limit_and_rests() {
    let mut book = reference_book();
    let out = book.submit(order(OrderSide::Bid, 97, 42, 20)).unwrap();
    assert_eq!(book.depth(), (6, 3));
    assert_eq!(out.fills.len(), 2);
    assert_eq!(out.remainder, Amount::from_u64(22));
    let best = book.bids().peek_best().unwrap();
    assert_eq!(best.price(), Amount::from_u64(97));
    assert_eq!(best.quantity(), Amount::from_u64(22));
    assert_eq!(best.side(), OrderSide::Bid);
    assert_eq!(book.asks().peek_best().unwrap().price(), Amount::from_u64(98));
}

#[test]
fn deep_sell_stops_at_limit_and_rests() {
    let mut book = reference_book();
    let out = book.submit(order(OrderSide::Ask, 94, 35, 20)).unwrap();
    assert_eq!(book.depth(), (3, 6));
    let total: u128 = out.fills.iter().map(|f| f.quantity.lo).sum();
    assert_eq!(total, 30);
    assert_eq!(out.remainder, Amount::from_u64(5));
    let best = book.asks().peek_best().unwrap();
    assert_eq!(best.price(), Amount::from_u64(94));
    assert_eq!(best.quantity(), Amount::from_u64(5));
    assert_eq!(book.bids().peek_best().unwrap().price(), Amount::from_u64(93));
}

#[test]
fn fills_never_exceed_incoming_quantity() {
    let mut book = reference_book();
    let out = book.submit(order(OrderSide::Bid, 1000, 1000, 20)).unwrap();
    let total: u128 = out.fills.iter().map(|f| f.quantity.lo).sum();
    assert_eq!(total, 67);
    assert_eq!(total + out.remainder.lo, 1000);
    assert_eq!(book.depth(), (6, 0));
}

#[test]
fn earlier_order_at_same_price_trades_first() {
    let mut book = Book::new(Address::zero());
    book.submit(order(OrderSide::Ask, 100, 4, 1)).unwrap();
    book.submit(order(OrderSide::Ask, 100, 6, 2)).unwrap();
    let out = book.submit(order(OrderSide::Bid, 100, 5, 3)).unwrap();
    assert_eq!(out.fills[0].maker, trader(1));
    assert_eq!(out.fills[0].quantity, Amount::from_u64(4));
    assert_eq!(out.fills[1].maker, trader(2));
    assert_eq!(out.fills[1].quantity, Amount::from_u64(1));
    assert_eq!(book.asks().peek_best().unwrap().quantity(), Amount::from_u64(5));
    assert_eq!(book.depth(), (0, 1));
}

#[test]
fn equal_priority_orders_queue_in_arrival_order() {
    let mut book = Book::new(Address::zero());
    book.submit(order(OrderSide::Bid, 50, 1, 7)).unwrap();
    book.submit(order(OrderSide::Bid, 50, 2, 7)).unwrap();
    assert_eq!(book.depth(), (2, 0));
    assert_eq!(book.bids().peek_best().unwrap().quantity(), Amount::from_u64(1));
}

#[test]
fn zero_quantity_order_rests_nowhere() {
    let mut book = reference_book();
    let out = book.submit(order(OrderSide::Bid, 200, 0, 20)).unwrap();
    assert!(out.fills.is_empty());
    assert_eq!(book.depth(), (5, 5));
}

#[test]
fn order_for_another_market_is_refused() {
    let mut book = reference_book();
    let foreign = Order::new(trader(1), trader(9), OrderSide::Bid, Amount::from_u64(100), Amount::from_u64(5), 1, vec![]);
    assert_eq!(book.submit(foreign).err(), Some(BookError::MarketMismatch));
    assert_eq!(book.depth(), (5, 5));
}

#[test]
fn settlement_failure_is_a_web3_error() {
    assert_eq!(settlement_result(true), Ok(()));
    assert_eq!(settlement_result(false), Err(BookError::Web3Error));
}

#[test]
fn amounts_subtract_across_limbs() {
    let big = Amount { hi: 1, lo: 0 };
    let one = Amount::from_u64(1);
    assert_eq!(big.minus(&one), Amount { hi: 0, lo: u128::MAX });
    assert!(one.le(&big));
    assert!(!big.le(&one));
    assert!(Amount::zero().is_zero());
    assert_eq!(Amount::from_u128(7).minus(&Amount::from_u64(7)), Amount::zero());
}

#[test]
fn large_amounts_match_exactly() {
    let mut book = Book::new(Address::zero());
    let price = Amount { hi: 5, lo: 1 };
    let qty = Amount { hi: 2, lo: 0 };
    book.submit(Order::new(trader(1), Address::zero(), OrderSide::Ask, price, qty, 1, vec![])).unwrap();
    let out = book
        .submit(Order::new(trader(2), Address::zero(), OrderSide::Bid, price, Amount::from_u64(3), 2, vec![1, 2]))
        .unwrap();
    assert_eq!(out.fills[0].maker_remaining, Amount { hi: 1, lo: u128::MAX - 2 });
    assert_eq!(book.depth(), (0, 1));
}

#[test]
fn addresses_compare_by_bytes() {
    assert!(trader(3).same_as(&trader(3)));
    assert!(!trader(3).same_as(&trader(4)));
    assert_eq!(Address::zero().as_bytes(), &[0u8; 20]);
}

#[test]
fn order_keeps_its_parts() {
    let o = Order::new(trader(1), trader(2), OrderSide::Ask, Amount::from_u64(9), Amount::from_u64(4), 77, vec![5]);
    assert_eq!(o.trader(), trader(1));
    assert_eq!(o.market(), &trader(2));
    assert_eq!(o.data(), &vec![5u8]);
    let o2 = o.with_quantity(Amount::from_u64(1));
    assert_eq!(o2.quantity(), Amount::from_u64(1));
    assert_eq!(o2.price(), Amount::from_u64(9));
}
