use rand::Rng;
use raytrace::vec::Vector;

const ONE: i128 = 4294967296;
const RANGE: i128 = 1 << 40;

fn rand_vec(rng: &mut impl Rng) -> Vector {
    Vector {
        x: rng.gen_range(-RANGE..RANGE),
        y: rng.gen_range(-RANGE..RANGE),
        z: rng.gen_range(-RANGE..RANGE),
    }
}

fn fxm(a: i128, b: i128) -> i128 {
    (a * b) / ONE
}

fn fxd(a: i128, b: i128) -> i128 {
    (a * ONE) / b
}

#[test]
fn test_add() {
    let mut rng = rand::thread_rng();
    for _i in 0..100 {
        let v1 = rand_vec(&mut rng);
        let v2 = rand_vec(&mut rng);
        let res = v1.add_vec(&v2);
        assert_eq!(res.x, v1.x + v2.x);
        assert_eq!(res.y, v1.y + v2.y);
        assert_eq!(res.z, v1.z + v2.z);
    }
}

#[test]
fn test_add_assign() {
    let mut rng = rand::thread_rng();
    for _i in 0..100 {
        let mut v1 = rand_vec(&mut rng);
        let v2 = rand_vec(&mut rng);
        let res = v1.add_vec(&v2);
        v1.add_assign(&v2);
        assert_eq!(res.x, v1.x);
        assert_eq!(res.y, v1.y);
        assert_eq!(res.z, v1.z);
    }
}

#[test]
fn test_sub() {
    let mut rng = rand::thread_rng();
    for _i in 0..100 {
        let v1 = rand_vec(&mut rng);
        let v2 = rand_vec(&mut rng);
        let res = v1.sub_vec(&v2);
        assert_eq!(res.x, v1.x - v2.x);
        assert_eq!(res.y, v1.y - v2.y);
        assert_eq!(res.z, v1.z - v2.z);
    }
}

#[test]
fn test_sub_assign() {
    let mut rng = rand::thread_rng();
    for _i in 0..100 {
        let mut v1 = rand_vec(&mut rng);
        let v2 = rand_vec(&mut rng);
        let res = v1.sub_vec(&v2);
        v1.sub_assign(&v2);
        assert_eq!(res.x, v1.x);
        assert_eq!(res.y, v1.y);
        assert_eq!(res.z, v1.z);
    }
}

#[test]
fn test_scale_mult() {
    let mut rng = rand::thread_rng();
    for _i in 0..100 {
        let v1 = rand_vec(&mut rng);
        let scalar: i128 = rng.gen_range(0..ONE);
        let res = v1.scale(scalar);
        assert_eq!(res.x, fxm(v1.x, scalar));
        assert_eq!(res.y, fxm(v1.y, scalar));
        assert_eq!(res.z, fxm(v1.z, scalar));
    }
}

#[test]
fn test_scale_mult_assign() {
    let mut rng = rand::thread_rng();
    for _i in 0..100 {
        let mut v1 = rand_vec(&mut rng);
        let scalar: i128 = rng.gen_range(0..ONE);
        let res = v1.scale(scalar);
        v1.scale_mult_assign(scalar);
        assert_eq!(res.x, v1.x);
        assert_eq!(res.y, v1.y);
        assert_eq!(res.z, v1.z);
    }
}

#[test]
fn test_scale_div_assign() {
    let mut rng = rand::thread_rng();
    for _i in 0..100 {
        let mut v1 = rand_vec(&mut rng);
        let scalar: i128 = rng.gen_range(1..ONE);
        let res = v1.scale_div(scalar);
        v1.scale_div_assign(scalar);
        assert_eq!(res.x, v1.x);
        assert_eq!(res.y, v1.y);
        assert_eq!(res.z, v1.z);
    }
}

#[test]
fn test_scale_div() {
    let mut rng = rand::thread_rng();
    for _i in 0..100 {
        let v1 = rand_vec(&mut rng);
        let scalar: i128 = rng.gen_range(1..ONE);
        let res = v1.scale_div(scalar);
        assert_eq!(res.x, fxd(v1.x, scalar));
        assert_eq!(res.y, fxd(v1.y, scalar));
        assert_eq!(res.z, fxd(v1.z, scalar));
    }
}
