use tank_arena::mycollide::{check_collide_bound_nonpass, check_collide_nonpass, Fraction};
use tank_arena::mytypes::{MyError, Vec2};

#[test]
fn check_collide_nonpass_invaild_param() {
    let pos1 = Vec2::new(10, 10);
    let v = Vec2::new(0, 0);
    let span1 = 10;
    let pos2 = Vec2::new(40, 40);
    let span2 = 20;
    let time_delta = 10;

    let result = check_collide_nonpass(&pos1, span1, &v, &pos2, span2, time_delta);
    assert!(result.is_err());

    let v = Vec2::new(1, 1);
    let time_delta = 0;
    let result = check_collide_nonpass(&pos1, span1, &v, &pos2, span2, time_delta);
    assert!(result.is_err());

    let time_delta = 10;
    let span1 = 0;
    let result = check_collide_nonpass(&pos1, span1, &v, &pos2, span2, time_delta);
    assert!(result.is_err());

    let span1 = 10;
    let pos2 = Vec2::new(15, 15);
    let result = check_collide_nonpass(&pos1, span1, &v, &pos2, span2, time_delta);
    assert!(result.is_err());
}

#[test]
fn check_collide_nonpass_return_none() {
    let pos1 = Vec2::new(10, 10);
    let v = Vec2::new(-1, 1);
    let span1 = 10;
    let pos2 = Vec2::new(40, 60);
    let span2 = 20;
    let time_delta = 10;

    let result = check_collide_nonpass(&pos1, span1, &v, &pos2, span2, time_delta).unwrap();
    assert!(result.is_none());

    let v = Vec2::new(0, 1);
    let result = check_collide_nonpass(&pos1, span1, &v, &pos2, span2, time_delta).unwrap();
    assert!(result.is_none());

    let pos2 = Vec2::new(15, 60);
    let v = Vec2::new(1, 0);
    let result = check_collide_nonpass(&pos1, span1, &v, &pos2, span2, time_delta).unwrap();
    assert!(result.is_none());

    let pos2 = Vec2::new(40, 60);
    let v = Vec2::new(1, 2);
    let time_delta = 5;
    let result = check_collide_nonpass(&pos1, span1, &v, &pos2, span2, time_delta).unwrap();
    assert!(result.is_none());

    let v = Vec2::new(1, 2);
    let time_delta = 5;
    let result = check_collide_nonpass(&pos1, span1, &v, &pos2, span2, time_delta).unwrap();
    assert!(result.is_none());

    let v = Vec2::new(6, 2);
    let time_delta = 12;
    let result = check_collide_nonpass(&pos1, span1, &v, &pos2, span2, time_delta).unwrap();
    assert!(result.is_none());

    let pos1 = Vec2::new(80, 70);
    let v = Vec2::new(-2, -7);
    let pos2 = Vec2::new(30, 30);
    let time_delta = 12;
    let result = check_collide_nonpass(&pos1, span1, &v, &pos2, span2, time_delta).unwrap();
    assert!(result.is_none());

    let pos1 = Vec2::new(50, 80);
    let v = Vec2::new(0, -2);
    let time_delta = 5;
    let result = check_collide_nonpass(&pos1, span1, &v, &pos2, span2, time_delta).unwrap();
    assert!(result.is_none());

    let pos1 = Vec2::new(70, 130);
    let v = Vec2::new(0, -1);
    let pos2 = Vec2::new(100, 100);
    let time_delta = 10;
    let result = check_collide_nonpass(&pos1, span1, &v, &pos2, span2, time_delta).unwrap();
    assert!(result.is_none());
}

#[test]
fn check_collide_nonpass_return_some() {
    let pos1 = Vec2::new(100, 100);
    let span1 = 10;
    let v = Vec2::new(-6, 5);
    let pos2 = Vec2::new(60, 140);
    let span2 = 20;
    let time_delta = 3;

    let result = check_collide_nonpass(&pos1, span1, &v, &pos2, span2, time_delta)
        .unwrap()
        .unwrap();
    assert!(result.is_whole(2));

    let pos2 = Vec2::new(150, 140);
    let v = Vec2::new(4, 3);
    let time_delta = 6;
    let result = check_collide_nonpass(&pos1, span1, &v, &pos2, span2, time_delta)
        .unwrap()
        .unwrap();
    assert!(result.is_whole(5));

    let pos2 = Vec2::new(140, 60);
    let v = Vec2::new(5, -5);
    let time_delta = 3;
    let result = check_collide_nonpass(&pos1, span1, &v, &pos2, span2, time_delta)
        .unwrap()
        .unwrap();
    assert!(result.is_whole(2));

    let pos2 = Vec2::new(80, 140);
    let v = Vec2::new(-3, 5);
    let time_delta = 3;
    let result = check_collide_nonpass(&pos1, span1, &v, &pos2, span2, time_delta)
        .unwrap()
        .unwrap();
    assert!(result.is_whole(2));

    let pos2 = Vec2::new(150, 80);
    let v = Vec2::new(5, -5);
    let time_delta = 5;
    let result = check_collide_nonpass(&pos1, span1, &v, &pos2, span2, time_delta)
        .unwrap()
        .unwrap();
    assert!(result.is_whole(4));

    let pos2 = Vec2::new(100, 60);
    let v = Vec2::new(0, -5);
    let time_delta = 3;
    let result = check_collide_nonpass(&pos1, span1, &v, &pos2, span2, time_delta)
        .unwrap()
        .unwrap();
    assert!(result.is_whole(2));

    let pos2 = Vec2::new(60, 80);
    let v = Vec2::new(-5, 0);
    let time_delta = 4;
    let result = check_collide_nonpass(&pos1, span1, &v, &pos2, span2, time_delta)
        .unwrap()
        .unwrap();
    assert!(result.is_whole(2));
}

#[test]
fn check_collide_bound_nonpass_return_err() {
    let pos = Vec2::new(20, 20);
    let span = 0;
    let v = Vec2::new(1, 0);
    let bound = Vec2::new(400, 400);
    let time_delta = 4;

    let result = check_collide_bound_nonpass(&pos, span, &v, &bound, time_delta);
    assert!(result.is_err());

    let span = 10;
    let v = Vec2::new(0, 0);
    let result = check_collide_bound_nonpass(&pos, span, &v, &bound, time_delta);
    assert!(result.is_err());

    let v = Vec2::new(1, 0);
    let bound = Vec2::new(-1, 0);
    let result = check_collide_bound_nonpass(&pos, span, &v, &bound, time_delta);
    assert!(result.is_err());

    let bound = Vec2::new(400, 400);
    let time_delta = -1;
    let result = check_collide_bound_nonpass(&pos, span, &v, &bound, time_delta);
    assert!(result.is_err());

    let pos = Vec2::new(0, 0);
    let time_delta = 3;
    let result = check_collide_bound_nonpass(&pos, span, &v, &bound, time_delta);
    assert!(result.is_err());

    let pos = Vec2::new(0, 400);
    let result = check_collide_bound_nonpass(&pos, span, &v, &bound, time_delta);
    assert!(result.is_err());
}

#[test]
fn check_collide_bound_nonpass_return_non() {
    let pos = Vec2::new(380, 380);
    let span = 10;
    let v = Vec2::new(1, 1);
    let bound = Vec2::new(400, 400);
    let time_delta = 4;

    let result = check_collide_bound_nonpass(&pos, span, &v, &bound, time_delta).unwrap();
    assert!(result.is_none());

    let pos = Vec2::new(30, 200);
    let v = Vec2::new(-1, 0);
    let result = check_collide_bound_nonpass(&pos, span, &v, &bound, time_delta).unwrap();
    assert!(result.is_none());

    let pos = Vec2::new(200, 20);
    let v = Vec2::new(0, -1);
    let result = check_collide_bound_nonpass(&pos, span, &v, &bound, time_delta).unwrap();
    assert!(result.is_none());
}

#[test]
fn check_collide_bound_nonpass_return_some() {
    let pos = Vec2::new(380, 380);
    let span = 10;
    let v = Vec2::new(5, 2);
    let bound = Vec2::new(400, 400);
    let time_delta = 4;

    let result = check_collide_bound_nonpass(&pos, span, &v, &bound, time_delta)
        .unwrap()
        .unwrap();
    assert!(result.is_whole(2));

    let pos = Vec2::new(30, 200);
    let v = Vec2::new(-10, 0);
    let result = check_collide_bound_nonpass(&pos, span, &v, &bound, time_delta)
        .unwrap()
        .unwrap();
    assert!(result.is_whole(2));

    let pos = Vec2::new(200, 20);
    let v = Vec2::new(0, -10);
    let result = check_collide_bound_nonpass(&pos, span, &v, &bound, time_delta)
        .unwrap()
        .unwrap();
    assert!(result.is_whole(1));
}

#[test]
fn collide_errors_name_their_cause() {
    let pos1 = Vec2::new(10, 10);
    let pos2 = Vec2::new(40, 40);
    assert_eq!(
        check_collide_nonpass(&pos1, 10, &Vec2::new(0, 0), &pos2, 20, 10).unwrap_err(),
        MyError::InvalidParam
    );
    assert_eq!(
        check_collide_nonpass(&pos1, 10, &Vec2::new(1, 1), &Vec2::new(15, 15), 20, 10)
            .unwrap_err(),
        MyError::AlreadyColliding
    );
    let bound = Vec2::new(400, 400);
    assert_eq!(
        check_collide_bound_nonpass(&Vec2::new(20, 20), 0, &Vec2::new(1, 0), &bound, 4)
            .unwrap_err(),
        MyError::InvalidParam
    );
    assert_eq!(
        check_collide_bound_nonpass(&Vec2::new(0, 0), 10, &Vec2::new(1, 0), &bound, 3)
            .unwrap_err(),
        MyError::OutsideBound
    );
}

#[test]
fn collide_time_is_an_exact_fraction() {
    // Gap of 10 along x at speed 3: contact after 10/3, which is within 4 but not within 3.
    let pos1 = Vec2::new(0, 0);
    let pos2 = Vec2::new(40, 0);
    let v = Vec2::new(3, 0);
    let t = check_collide_nonpass(&pos1, 10, &v, &pos2, 20, 4).unwrap().unwrap();
    assert_eq!((t.num, t.den), (10, 3));
    assert!(!t.is_whole(3));
    assert!(check_collide_nonpass(&pos1, 10, &v, &pos2, 20, 3).unwrap().is_none());
}

#[test]
fn bound_time_picks_the_nearer_wall() {
    // 370 to the right wall at speed 37 takes 10; 15 to the top wall at speed 5 takes 3.
    let pos = Vec2::new(20, 375);
    let bound = Vec2::new(400, 400);
    let t = check_collide_bound_nonpass(&pos, 10, &Vec2::new(37, 5), &bound, 20)
        .unwrap()
        .unwrap();
    assert_eq!((t.num, t.den), (15, 5));
    assert!(t.is_whole(3));
}

#[test]
fn fraction_whole_test_uses_cross_multiplication() {
    let t = Fraction { num: 6, den: 3 };
    assert!(t.is_whole(2));
    assert!(!t.is_whole(3));
    let u = Fraction { num: 7, den: 3 };
    assert!(!u.is_whole(2));
}
