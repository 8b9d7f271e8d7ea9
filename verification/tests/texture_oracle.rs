use texture_scan::texture_provider::sodium::stafford_mix13;
use texture_scan::texture_provider::{
    rotation_values_at, Sodium19Textures, SodiumTextures, TextureProvider, VanillaTextures,
};

const SAMPLE_POINTS: [(i32, i32, i32); 6] = [
    (0, 0, 0),
    (1, 2, 3),
    (-6, 61, 0),
    (123, -456, 789),
    (-2147480000, 100, 2147480000),
    (7, -3, 11),
];

#[test]
fn vanilla_known_values() {
    let t = VanillaTextures {};
    let expected4 = [0, 2, 1, 0, 2, 1];
    let expected2 = [0, 0, 1, 0, 0, 1];
    for (i, &(x, y, z)) in SAMPLE_POINTS.iter().enumerate() {
        assert_eq!(t.get_texture(x, y, z, 4), expected4[i], "modulo 4 at {:?}", (x, y, z));
        assert_eq!(t.get_texture(x, y, z, 2), expected2[i], "modulo 2 at {:?}", (x, y, z));
    }
}

#[test]
fn sodium_known_values() {
    let t = SodiumTextures {};
    let expected4 = [3, 2, 3, 0, 0, 0];
    let expected2 = [1, 0, 1, 0, 0, 0];
    for (i, &(x, y, z)) in SAMPLE_POINTS.iter().enumerate() {
        assert_eq!(t.get_texture(x, y, z, 4), expected4[i], "modulo 4 at {:?}", (x, y, z));
        assert_eq!(t.get_texture(x, y, z, 2), expected2[i], "modulo 2 at {:?}", (x, y, z));
    }
}

#[test]
fn sodium19_known_values() {
    let t = Sodium19Textures {};
    let expected4 = [2, 0, 2, 0, 2, 2];
    let expected2 = [0, 0, 0, 0, 0, 0];
    for (i, &(x, y, z)) in SAMPLE_POINTS.iter().enumerate() {
        assert_eq!(t.get_texture(x, y, z, 4), expected4[i], "modulo 4 at {:?}", (x, y, z));
        assert_eq!(t.get_texture(x, y, z, 2), expected2[i], "modulo 2 at {:?}", (x, y, z));
    }
}

#[test]
fn stafford_mix13_known_values() {
    assert_eq!(stafford_mix13(0), 0);
    assert_eq!(stafford_mix13(1), 6238072747940578789);
    assert_eq!(stafford_mix13(-1), -5417735806833148549);
    assert_eq!(stafford_mix13(123456789), -1000775671988880032);
    assert_eq!(stafford_mix13(-987654321), -8055280893271290002);
}

#[test]
fn oracle_is_deterministic() {
    let v = VanillaTextures {};
    let s = SodiumTextures {};
    let s19 = Sodium19Textures {};
    for &(x, y, z) in SAMPLE_POINTS.iter() {
        for modulo in [2, 4] {
            assert_eq!(v.get_texture(x, y, z, modulo), v.get_texture(x, y, z, modulo));
            assert_eq!(s.get_texture(x, y, z, modulo), s.get_texture(x, y, z, modulo));
            assert_eq!(s19.get_texture(x, y, z, modulo), s19.get_texture(x, y, z, modulo));
        }
    }
}

#[test]
fn oracle_values_stay_in_range() {
    let v = VanillaTextures {};
    let s = SodiumTextures {};
    let s19 = Sodium19Textures {};
    for x in -20..20 {
        for y in -5..5 {
            for z in -20..20 {
                for modulo in [2, 4] {
                    for r in [
                        v.get_texture(x, y, z, modulo),
                        s.get_texture(x, y, z, modulo),
                        s19.get_texture(x, y, z, modulo),
                    ] {
                        assert!(0 <= r && r < modulo, "value {} at {:?} mod {}", r, (x, y, z), modulo);
                    }
                }
            }
        }
    }
}

#[test]
fn point_check_reports_all_variants() {
    let (sod, sod19, van) = rotation_values_at(-6, 61, 0, false);
    assert_eq!(sod, 3);
    assert_eq!(sod19, 2);
    assert_eq!(van, 1);
    let (sod_s, sod19_s, van_s) = rotation_values_at(-6, 61, 0, true);
    assert_eq!(sod_s, 1);
    assert_eq!(sod19_s, 0);
    assert_eq!(van_s, 1);
}
