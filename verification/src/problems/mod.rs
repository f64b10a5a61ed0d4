pub mod cost_matrix;
pub mod enumeration;
pub mod makespan_model;
pub mod makespan_problem;
