use verified_collections::color::{Color, IntoColorError};

#[test]
fn tuple_with_fitting_channels_converts() {
    let c: Result<Color, _> = (183, 65, 14).try_into();
    assert_eq!(c, Ok(Color { red: 183, green: 65, blue: 14 }));
    assert_eq!(Color::try_from((0, 255, 0)), Ok(Color { red: 0, green: 255, blue: 0 }));
}

#[test]
fn tuple_with_a_channel_out_of_range_fails() {
    assert_eq!(Color::try_from((256, 1000, 10000)), Err(IntoColorError::IntConversion));
    assert_eq!(Color::try_from((-1, -10, -256)), Err(IntoColorError::IntConversion));
    assert_eq!(Color::try_from((-1, 255, 255)), Err(IntoColorError::IntConversion));
    assert_eq!(Color::try_from((0, 0, 256)), Err(IntoColorError::IntConversion));
}

#[test]
fn array_converts_like_the_tuple() {
    assert_eq!(Color::try_from([183, 65, 14]), Ok(Color { red: 183, green: 65, blue: 14 }));
    assert_eq!(Color::try_from([1000, 10000, 256]), Err(IntoColorError::IntConversion));
    assert_eq!(Color::try_from([-10, -256, -1]), Err(IntoColorError::IntConversion));
    assert_eq!(Color::try_from([-1, 255, 255]), Err(IntoColorError::IntConversion));
}

#[test]
fn slice_must_hold_three_fitting_channels() {
    let v = vec![183, 65, 14];
    assert_eq!(Color::try_from(&v[..]), Ok(Color { red: 183, green: 65, blue: 14 }));
    let arr = [10000, 256, 1000];
    assert_eq!(Color::try_from(&arr[..]), Err(IntoColorError::IntConversion));
    let arr = [-256, -1, -10];
    assert_eq!(Color::try_from(&arr[..]), Err(IntoColorError::IntConversion));
}

#[test]
fn slice_of_another_length_fails_before_its_values_are_read() {
    let v = vec![0, 0, 0, 0];
    assert_eq!(Color::try_from(&v[..]), Err(IntoColorError::BadLen));
    let v = vec![0, 0];
    assert_eq!(Color::try_from(&v[..]), Err(IntoColorError::BadLen));
    let v = vec![-1, 300];
    assert_eq!(Color::try_from(&v[..]), Err(IntoColorError::BadLen));
    let v: Vec<i16> = vec![];
    assert_eq!(Color::try_from(&v[..]), Err(IntoColorError::BadLen));
}
