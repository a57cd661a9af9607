use rust_journey::shapes::Rectangle;

#[test]
fn area_is_width_times_height() {
    let rect1 = Rectangle {
        width: 30,
        height: 50,
    };
    assert_eq!(rect1.area(), 1500);
}

#[test]
fn square_has_equal_sides() {
    let sq = Rectangle::square(7);
    assert_eq!(sq.width, 7);
    assert_eq!(sq.height, 7);
    assert_eq!(sq.area(), 49);
}

#[test]
fn area_at_the_limit_of_u32() {
    let r = Rectangle {
        width: 65535,
        height: 65537,
    };
    assert_eq!(r.area(), u32::MAX);
}
