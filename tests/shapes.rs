use web_server::shapes::Rectangle;

#[test]
fn this_one_succeeds() {
    assert_eq!(2 + 2, 4);
}

#[test]
#[should_panic(expected = "Type convertion failed!")]
fn check_rectangle() {
    let r1 = Rectangle { width: 4, height: 3 };
    let r2 = Rectangle { width: 3, height: 2 };

    assert_eq!(r1.area(), 12);
    assert_ne!(r2.area(), 99);
    assert!(r1.can_hold(&r2));
    assert!(!r2.can_hold(&r1));
    assert!(
        r1.can_hold(&r2),
        "Rectangle sized ({}, {}) should contain another sized ({}, {})!",
        r1.width,
        r1.height,
        r2.width,
        r2.height
    );

    let x: i32 = -3;
    let y: i32 = -771;

    let _r = Rectangle::new_from_i32(x, y).unwrap();
}

#[test]
fn check_rectangle_with_result() -> Result<(), String> {
    let x: i32 = 21;
    let y: i32 = 99;

    let _r = Rectangle::new_from_i32(x, y)?;
    Ok(())
}

#[test]
fn will_succeed() {
    assert_eq!(2 + 2, 4);
}

#[test]
fn area() {
    let r = Rectangle { width: 7, height: 3 };
    assert_eq!(r.area(), 21);
}

#[test]
fn new_from_i32_keeps_sides() {
    let r = Rectangle::new_from_i32(21, 99).unwrap();
    assert_eq!((r.width, r.height), (21, 99));
    assert_eq!(r.area(), 2079);
    let z = Rectangle::new_from_i32(0, 0).unwrap();
    assert_eq!(z.area(), 0);
}

#[test]
fn new_from_i32_refuses_one_negative_side() {
    assert_eq!(
        Rectangle::new_from_i32(5, -1).err(),
        Some("Type convertion failed!".to_string())
    );
    assert!(Rectangle::new_from_i32(-1, 5).is_err());
    assert!(Rectangle::new_from_i32(i32::MAX, i32::MAX).is_ok());
}

#[test]
fn can_hold_equal_and_rotated() {
    let a = Rectangle { width: 4, height: 3 };
    let b = Rectangle { width: 4, height: 3 };
    let c = Rectangle { width: 3, height: 4 };
    assert!(a.can_hold(&b));
    assert!(!a.can_hold(&c));
    assert!(!c.can_hold(&a));
}
