//! Byte costs of genes against their size in the checkpoint encoding
//! (`bincode` standard configuration over the serde layout of the genes).

use serde::ser::{Serialize, SerializeStruct, Serializer};
use shapeme::gene::{CircleGene, ShapeGene, TriangleGene, CIRCLE_COST, TRIANGLE_COST};

type Lab = [f32; 3];

/// A gene as the checkpoint writes it: the enum variant, then the fields in
/// declaration order.
struct Encoded<'a>(&'a ShapeGene<Lab>);

struct EncodedTriangle<'a>(&'a TriangleGene<Lab>);

struct EncodedCircle<'a>(&'a CircleGene<Lab>);

impl Serialize for EncodedTriangle<'_> {
    fn serialize<S: Serializer>(&self, s: S) -> Result<S::Ok, S::Error> {
        let t = self.0;
        let mut st = s.serialize_struct("TriangleGene", 9)?;
        st.serialize_field("x1", &t.x1)?;
        st.serialize_field("y1", &t.y1)?;
        st.serialize_field("x2", &t.x2)?;
        st.serialize_field("y2", &t.y2)?;
        st.serialize_field("x3", &t.x3)?;
        st.serialize_field("y3", &t.y3)?;
        st.serialize_field("oklab", &t.oklab)?;
        st.serialize_field("alpha", &t.alpha)?;
        st.serialize_field("z_order", &t.z_order)?;
        st.end()
    }
}

impl Serialize for EncodedCircle<'_> {
    fn serialize<S: Serializer>(&self, s: S) -> Result<S::Ok, S::Error> {
        let c = self.0;
        let mut st = s.serialize_struct("CircleGene", 6)?;
        st.serialize_field("cx", &c.cx)?;
        st.serialize_field("cy", &c.cy)?;
        st.serialize_field("radius", &c.radius)?;
        st.serialize_field("oklab", &c.oklab)?;
        st.serialize_field("alpha", &c.alpha)?;
        st.serialize_field("z_order", &c.z_order)?;
        st.end()
    }
}

impl Serialize for Encoded<'_> {
    fn serialize<S: Serializer>(&self, s: S) -> Result<S::Ok, S::Error> {
        match self.0 {
            ShapeGene::Triangle(t) => s.serialize_newtype_variant("ShapeGene", 0, "Triangle", &EncodedTriangle(t)),
            ShapeGene::Circle(c) => s.serialize_newtype_variant("ShapeGene", 1, "Circle", &EncodedCircle(c)),
            ShapeGene::Polygon(_) => unreachable!("only triangles and circles are encoded here"),
        }
    }
}

fn encoded_len(g: &ShapeGene<Lab>) -> usize {
    bincode::serde::encode_to_vec(Encoded(g), bincode::config::standard()).expect("encode").len()
}

#[test]
fn gene_costs_are_in_plausible_range() {
    let triangle_gene = ShapeGene::Triangle(TriangleGene {
        x1: 0,
        y1: 0,
        x2: 50,
        y2: 0,
        x3: 25,
        y3: 50,
        oklab: [0.5, 0.0, 0.0],
        alpha: 50,
        z_order: 100,
    });
    let circle_gene = ShapeGene::Circle(CircleGene {
        cx: 25,
        cy: 25,
        radius: 10,
        oklab: [0.5, 0.0, 0.0],
        alpha: 50,
        z_order: 100,
    });
    let triangle_bytes = encoded_len(&triangle_gene);
    let circle_bytes = encoded_len(&circle_gene);
    // Allow 50% variance: constants are heuristics for a 256×256 image with typical coords.
    assert!(
        triangle_bytes <= TRIANGLE_COST * 3 / 2,
        "TRIANGLE_COST far off: actual={triangle_bytes}, const={TRIANGLE_COST}"
    );
    assert!(circle_bytes <= CIRCLE_COST * 3 / 2, "CIRCLE_COST far off: actual={circle_bytes}, const={CIRCLE_COST}");
    assert!(TRIANGLE_COST > CIRCLE_COST, "triangle must cost more than circle");
}
