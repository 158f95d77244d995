use live_sim::neuro::DummyNetwork;
use live_sim::scalar::Scalar;
use live_sim::solver::{GridPoint, Point};
use live_sim::source::{Source, SourcesBox};
use live_sim::util::{wrap_around, Signals};

fn scalar(v: f32) -> Scalar {
    Scalar::from_bits(v.to_bits())
}

fn point(x: f32, y: f32) -> Point {
    Point { x: scalar(x), y: scalar(y) }
}

fn coordinates(p: Point) -> (f32, f32) {
    (f32::from_bits(p.x.to_bits()), f32::from_bits(p.y.to_bits()))
}

#[test]
fn network_knows_its_outputs() {
    assert_eq!(DummyNetwork::new(2).outputs(), 2);
    assert_eq!(DummyNetwork::new(0).outputs(), 0);
    assert_eq!(DummyNetwork::new(usize::MAX).outputs(), usize::MAX);
}

#[test]
fn no_wishes_at_first() {
    let signals = Signals::new();
    assert!(!signals.spawn_agent);
    assert!(!signals.new_sim);
    assert_eq!(signals.new_sim_name, "");
}

#[test]
fn point_past_the_margin_goes_beyond_the_opposite_edge() {
    assert_eq!(coordinates(wrap_around(&point(3205.5, 100.0))), (-5.0, 100.0));
    assert_eq!(coordinates(wrap_around(&point(-5.5, 100.0))), (3205.0, 100.0));
    assert_eq!(coordinates(wrap_around(&point(100.0, 1805.5))), (100.0, -5.0));
    assert_eq!(coordinates(wrap_around(&point(100.0, -6.0))), (100.0, 1805.0));
    assert_eq!(coordinates(wrap_around(&point(4000.0, -4000.0))), (-5.0, 1805.0));
}

#[test]
fn point_within_the_margin_stays() {
    assert_eq!(coordinates(wrap_around(&point(3205.0, -5.0))), (3205.0, -5.0));
    assert_eq!(coordinates(wrap_around(&point(0.0, 0.0))), (0.0, 0.0));
    assert_eq!(coordinates(wrap_around(&point(1600.25, 900.75))), (1600.25, 900.75));
    let lost = wrap_around(&point(f32::NAN, 5.0));
    assert!(lost.x.is_nan());
}

#[test]
fn new_source_holds_ten_for_each_unit_of_area() {
    let source = Source::new(Point::on_grid(3, 4), 7);
    assert_eq!(coordinates(source.pos), (3.0, 4.0));
    assert_eq!(source.size, 7);
    assert_eq!(source.max_eng, 490);
    assert_eq!(source.eng, 490);
    assert!(source.alife);
    assert_eq!(source.rot.to_bits(), 0);
    assert_eq!(Source::new(Point::on_grid(0, 0), u16::MAX).eng, 42_948_362_250);
}

#[test]
fn source_is_drained_and_dies_without_energy() {
    let mut source = Source::new(Point::on_grid(3, 4), 2);
    source.drain_eng(15);
    assert_eq!(source.eng, 25);
    source.update(1000);
    assert!(source.alife);
    source.drain_eng(30);
    assert_eq!(source.eng, -5);
    assert!(source.alife);
    source.update(1000);
    assert!(!source.alife);
    assert_eq!(source.eng, 0);
}

#[test]
fn source_that_strays_is_put_back() {
    let mut source = Source::new(Point::on_grid(3300, -100), 2);
    source.update(0);
    assert_eq!(coordinates(source.pos), (-5.0, 1805.0));
    assert!(source.alife);
}

#[test]
fn sources_are_kept_by_key() {
    let mut sources = SourcesBox::new();
    assert_eq!(sources.count(), 0);
    let a = Source::new(Point::on_grid(1, 1), 5);
    let b = Source::new(Point::on_grid(2, 2), 6);
    let ka = sources.add_source(a);
    let kb = sources.add_source(b);
    assert_ne!(ka, kb);
    assert_eq!(sources.count(), 2);
    assert_eq!(sources.get(ka), Some(&a));
    assert_eq!(sources.get(kb), Some(&b));
    sources.remove(ka);
    assert_eq!(sources.count(), 1);
    assert!(sources.get(ka).is_none());
    sources.remove(ka);
    assert_eq!(sources.count(), 1);
    sources.add_many(&vec![a, b, a]);
    assert_eq!(sources.count(), 4);
    assert_eq!(sources.get(kb), Some(&b));
}
