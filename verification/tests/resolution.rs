use instagroup::media::Resolution;

#[test]
fn resolution_cmp() {
    assert!(
        Resolution {
            width: 720,
            height: 400
        }
        .cmp(&Resolution {
            width: 120,
            height: 200
        })
        .is_gt()
    );
}

#[test]
fn resolution_opt_cmp() {
    assert!(
        Some(Resolution {
            width: 720,
            height: 400
        })
        .cmp(&None)
        .is_gt()
    );
}

#[test]
fn resolution_area_ranks_by_pixels() {
    // 720x400 has the larger area even though 1200 > 720 on width alone
    let a = Resolution {
        width: 720,
        height: 400,
    };
    let b = Resolution {
        width: 1200,
        height: 90,
    };
    assert!(a.area() > b.area());
    assert_eq!(a.area(), 288_000);
}

#[test]
fn resolution_label() {
    let r = Resolution {
        width: 1920,
        height: 1080,
    };
    assert_eq!(r.label(), "1920x1080");
}
