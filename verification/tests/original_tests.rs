use swdft::engine::needed_samplerate_octave;
use swdft::texture::KPoint;
use swdft::texture::KRect;
use swdft::texture::RectAllocator;

#[test]
fn colorchord() {
    let step = (2.0_f64).powf(1.0 / 12.0);
    let mut f = 440.0_f64;
    println!("freq       hue");
    for _ in 0..13 {
        let hue = 360.0 - (f / 440.0).log2() * 360.0;

        println!("{:.2} Hz   {:.0} deg", f, hue);

        f *= step;
    }
}

#[test]
pub fn test_needed_sr() {
    let mut f: u64 = 20_000;
    let sr: u64 = 24_000_000;

    for _ in 0..16 {
        println!("for {} {} it's {}", f, sr, needed_samplerate_octave(f, sr));
        f = f * 2;
    }
}

#[test]
pub fn test_rect_alloc() {
    let mut ra = RectAllocator::new();

    ra.provide(KRect {
        min: KPoint { x: 0, y: 0 },
        max: KPoint { x: 1024, y: 1024 },
        atlas_id: 0,
    });
    {
        let a = ra.allocate(32);
        assert!(a != None);
        assert_eq!(
            a.unwrap(),
            KRect {
                min: KPoint { x: 0, y: 0 },
                max: KPoint { x: 32, y: 32 },
                atlas_id: 0,
            }
        );
    }
    {
        let b = ra.allocate(32);
        assert!(b != None);
        let br = b.unwrap();

        assert_eq!(br.dx(), 32);
        assert_eq!(br.dy(), 32);
    }
    {
        let c = ra.allocate(32);
        assert!(c != None);
        let cr = c.unwrap();

        assert_eq!(cr.dx(), 32);
        assert_eq!(cr.dy(), 32);
    }
}
