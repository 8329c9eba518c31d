pub mod graph;
pub mod prefixmap;
pub mod rdf_parser;
pub mod shacl;
pub mod shex2html;
pub mod shex_ast;
pub mod srdf;
pub mod term;
pub mod text;
pub mod validation;
