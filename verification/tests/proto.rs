use perlica::logic::traits::proto::{ToProto, ToProtoWith};

#[derive(Debug, PartialEq)]
struct Point {
    x: i32,
    y: i32,
}

#[derive(Debug, PartialEq)]
struct ProtoPoint {
    x: i32,
    y: i32,
}

impl From<&Point> for ProtoPoint {
    fn from(p: &Point) -> Self {
        ProtoPoint { x: p.x, y: p.y }
    }
}

#[test]
fn to_proto_uses_into_impl() {
    let point = Point { x: 10, y: 20 };
    let proto: ProtoPoint = point.to_proto();
    assert_eq!(proto, ProtoPoint { x: 10, y: 20 });
}

#[test]
fn to_proto_matches_from() {
    let point = Point { x: -5, y: 42 };
    let via_to_proto: ProtoPoint = point.to_proto();
    let via_from: ProtoPoint = (&point).into();
    assert_eq!(via_to_proto, via_from);
}

struct ScaleContext {
    factor: i32,
}

struct ScaledProtoPoint {
    x: i32,
    y: i32,
}

impl ToProtoWith<ScaledProtoPoint, ScaleContext> for Point {
    fn to_proto_with(&self, ctx: &ScaleContext) -> ScaledProtoPoint {
        ScaledProtoPoint { x: self.x * ctx.factor, y: self.y * ctx.factor }
    }
}

#[test]
fn to_proto_with_applies_context() {
    let point = Point { x: 3, y: 4 };
    let ctx = ScaleContext { factor: 2 };
    let scaled = point.to_proto_with(&ctx);
    assert_eq!(scaled.x, 6);
    assert_eq!(scaled.y, 8);
}
