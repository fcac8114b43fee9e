use sublinear_bft_scifest::geo_latency::{GeoLatencyMatrix, Region};

#[test]
fn test_same_region() {
    let matrix = GeoLatencyMatrix::new();
    assert_eq!(matrix.get_latency_ms(Region::USEast, Region::USEast), 1);
}

#[test]
fn test_cross_continent() {
    let matrix = GeoLatencyMatrix::new();
    assert!(matrix.get_latency_ms(Region::SAEast, Region::APNortheast) >= 250);
}

#[test]
fn test_symmetry() {
    let matrix = GeoLatencyMatrix::new();
    assert_eq!(
        matrix.get_latency_ms(Region::USEast, Region::EUWest),
        matrix.get_latency_ms(Region::EUWest, Region::USEast)
    );
}

#[test]
fn latency_is_symmetric_for_every_pair() {
    let matrix = GeoLatencyMatrix::new();
    let regions = GeoLatencyMatrix::all_regions();
    assert_eq!(regions.len(), 8);
    for &a in &regions {
        for &b in &regions {
            assert_eq!(matrix.get_latency_us(a, b), matrix.get_latency_us(b, a));
        }
    }
}

#[test]
fn latency_exact_values() {
    let matrix = GeoLatencyMatrix::new();
    assert_eq!(matrix.get_latency_us(Region::USEast, Region::USWest), 60_000);
    assert_eq!(matrix.get_latency_us(Region::SAEast, Region::APNortheast), 280_000);
    assert_eq!(matrix.get_latency_us(Region::APNortheast, Region::SAEast), 280_000);
    assert_eq!(matrix.get_latency_us(Region::AFSouth, Region::SAEast), 270_000);
    assert_eq!(matrix.get_latency_us(Region::EUCentral, Region::EUWest), 15_000);
    assert_eq!(matrix.get_latency_us(Region::APSouth, Region::SAEast), 310_000);
    assert_eq!(matrix.get_latency_ms(Region::APSouth, Region::SAEast), 310);
    assert_eq!(matrix.get_latency_us(Region::AFSouth, Region::AFSouth), 1_000);
}

#[test]
fn max_latency_of_global_set() {
    let matrix = GeoLatencyMatrix::new();
    let set = vec![Region::USEast, Region::EUWest, Region::APNortheast, Region::SAEast];
    assert_eq!(matrix.max_latency(&set), 280);
    assert_eq!(matrix.max_latency(&[]), 0);
    assert_eq!(matrix.max_latency(&[Region::USWest]), 1);
}

#[test]
fn test_global_average() {
    let matrix = GeoLatencyMatrix::new();
    let global_set = vec![Region::USEast, Region::EUWest, Region::APNortheast, Region::SAEast];
    let (total, count) = matrix.pair_latencies(&global_set);
    let avg = (total as f64) / (count as f64) / 1000.0;
    println!("Global 4-validator average latency: {:.1}ms", avg);
    assert!(avg > 50.0 && avg < 200.0);
}

#[test]
fn pair_latencies_count_each_pair_once() {
    let matrix = GeoLatencyMatrix::new();
    assert_eq!(matrix.pair_latencies(&[]), (0, 0));
    assert_eq!(matrix.pair_latencies(&[Region::USEast]), (0, 0));
    assert_eq!(matrix.pair_latencies(&[Region::USEast, Region::USWest]), (60_000, 1));
    let set = vec![Region::USEast, Region::EUWest, Region::APNortheast, Region::SAEast];
    // 75 + 150 + 110 + 220 + 180 + 280 ms
    assert_eq!(matrix.pair_latencies(&set), (1_015_000, 6));
    assert_eq!(matrix.pair_latencies(&[Region::USEast; 3]), (3_000, 3));
}
