use bmp_filters::images::RGB;

#[test]
fn new_stores_all_channels() {
    let p = RGB::new(1, 2, 3, Some(4));
    assert_eq!(p.red(), 1);
    assert_eq!(p.green(), 2);
    assert_eq!(p.blue(), 3);
    assert_eq!(p.alpha, Some(4));
}

#[test]
fn setters_change_one_channel_each() {
    let mut p = RGB::new(1, 2, 3, None);
    p.set_red(10);
    p.set_green(20);
    p.set_blue(30);
    assert_eq!(p, RGB::new(10, 20, 30, None));
}

#[test]
fn set_value_sets_all_colour_channels() {
    let mut p = RGB::new(1, 2, 3, Some(9));
    p.set_value(77);
    assert_eq!(p, RGB::new(77, 77, 77, Some(9)));
}

#[test]
fn grayscale_floors_the_mean_and_keeps_alpha() {
    let p = RGB::new(10, 20, 40, Some(5));
    assert_eq!(p.grayscale(), RGB::new(23, 23, 23, Some(5)));
    let q = RGB::new(255, 255, 255, None);
    assert_eq!(q.grayscale(), RGB::new(255, 255, 255, None));
    let z = RGB::new(0, 0, 2, None);
    assert_eq!(z.grayscale(), RGB::new(0, 0, 0, None));
}

#[test]
fn default_pixel_is_black_without_alpha() {
    assert_eq!(RGB::default(), RGB::new(0, 0, 0, None));
}
