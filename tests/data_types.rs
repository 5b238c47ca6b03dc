use ray_tracer::{Rgb, Vec3, Vec4};

#[test]
fn rgb_test_new_and_getters() {
    let rgb = Rgb::new(1, 2, 3);
    assert_eq!(1, rgb.red());
    assert_eq!(2, rgb.green());
    assert_eq!(3, rgb.blue());
}

#[test]
fn test_from_3_tuple_by_value() {
    let t = (1, 2, 3);
    let rgb = Rgb::from(&t);
    assert_eq!(1, rgb.red());
    assert_eq!(2, rgb.green());
    assert_eq!(3, rgb.blue());
}

#[test]
fn test_from_3_tuple_by_ref() {
    let t = (1, 2, 3);
    let rgb = Rgb::from(&t);
    assert_eq!(1, rgb.red());
    assert_eq!(2, rgb.green());
    assert_eq!(3, rgb.blue());
}

#[test]
fn rgb_from_3_tuple_owned() {
    let rgb = Rgb::from((7, 8, 9));
    assert_eq!(7, rgb.red());
    assert_eq!(8, rgb.green());
    assert_eq!(9, rgb.blue());
}

#[test]
fn test_from_vec3() {
    let vec3 = Vec3::new(1, 2, 3);
    let rgb = Rgb::from(vec3);
    assert_eq!(1, rgb.red());
    assert_eq!(2, rgb.green());
    assert_eq!(3, rgb.blue());
}

#[test]
fn test_into_vec3() {
    let rgb = Rgb::new(1, 2, 3);
    let vec3: Vec3<u8> = rgb.into();
    assert_eq!(1, *vec3._0());
    assert_eq!(2, *vec3._1());
    assert_eq!(3, *vec3._2());
}

#[test]
fn vec3_test_new_and_getters() {
    let vec3 = Vec3::new(1, 2, 3);
    assert_eq!(1, *vec3._0());
    assert_eq!(2, *vec3._1());
    assert_eq!(3, *vec3._2());
}

#[test]
fn test_from_3_tuple() {
    let t = (1, 2, 3);
    let vec3 = Vec3::from(t);
    assert_eq!(1, *vec3._0());
    assert_eq!(2, *vec3._1());
    assert_eq!(3, *vec3._2());
}

#[test]
fn vec4_test_new_and_getters() {
    let vec4 = Vec4::new(1, 2, 3, 4);
    assert_eq!(1, *vec4._0());
    assert_eq!(2, *vec4._1());
    assert_eq!(3, *vec4._2());
    assert_eq!(4, *vec4._3());
}

#[test]
fn test_from_4_tuple_by_value() {
    let t = (1, 2, 3, 4);
    let vec4 = Vec4::from(t);
    assert_eq!(1, *vec4._0());
    assert_eq!(2, *vec4._1());
    assert_eq!(3, *vec4._2());
    assert_eq!(4, *vec4._3());
}

#[test]
fn test_from_4_tuple_by_ref() {
    let t = (1, 2, 3, 4);
    let vec4 = Vec4::from(&t);
    assert_eq!(1, *vec4._0());
    assert_eq!(2, *vec4._1());
    assert_eq!(3, *vec4._2());
    assert_eq!(4, *vec4._3());
}

#[test]
fn test_map() {
    let vec4 = Vec4::new(1, 2, 3, 4);
    let inc_vec4 = vec4.map(|x| x + 1);
    assert_eq!(2, *inc_vec4._0());
    assert_eq!(3, *inc_vec4._1());
    assert_eq!(4, *inc_vec4._2());
    assert_eq!(5, *inc_vec4._3());
}
