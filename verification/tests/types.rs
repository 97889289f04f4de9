use rustofluid::types::FrontBackBuffer;
use rustofluid::types::Index2;

#[test]
fn index_new_and_zeros() {
    let i = Index2::new(3, 7);
    assert_eq!(i.x, 3);
    assert_eq!(i.y, 7);
    assert_eq!(Index2::zeros(), Index2::new(0, 0));
    assert_ne!(Index2::new(3, 7), Index2::new(7, 3));
}

#[test]
fn index_component_by_axis() {
    let i = Index2::new(3, 7);
    assert_eq!(i.get(0), 3);
    assert_eq!(i.get(1), 7);
}

#[test]
fn swap_exchanges_front_and_back() {
    let mut b = FrontBackBuffer { front: 1.5, back: -2.0 };
    b.swap();
    assert_eq!(b.front, -2.0);
    assert_eq!(b.back, 1.5);
    b.swap();
    assert_eq!(b.front, 1.5);
    assert_eq!(b.back, -2.0);
}

#[test]
fn swap_of_vectors() {
    let mut b = FrontBackBuffer { front: [1, 2], back: [3, 4] };
    b.swap();
    assert_eq!(b.front, [3, 4]);
    assert_eq!(b.back, [1, 2]);
}
