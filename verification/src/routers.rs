use vstd::prelude::*;

use vstd::string::StringExecFns;

verus! {

/// The verbs the route tables use.
#[derive(Clone, Copy, Debug, PartialEq, Eq, Structural)]
pub enum HttpMethod {
    Get,
    Post,
    Put,
    Delete,
}

/// One route: the verb and the path pattern relative to the router's
/// scope prefix. The transport collaborator mounts these.
#[derive(Debug)]
pub struct RouteSpec {
    pub method: HttpMethod,
    pub path: String,
}

/// The category endpoints.
pub struct CategoryRouter;

/// The user endpoints.
pub struct UserRouter;

impl CategoryRouter {
    /// The scope prefix under which the category routes are mounted.
    pub fn scope() -> (r: String)
        ensures
            r@ == "/category"@,
    {
        String::from_str("/category")
    }

    /// The route table, in declaration order: create, read, update,
    /// delete.
    pub fn new() -> (r: Vec<RouteSpec>)
        ensures
            r@.len() == 4,
            r@[0].method == HttpMethod::Post && r@[0].path@ == ""@,
            r@[1].method == HttpMethod::Get && r@[1].path@ == "/{id}"@,
            r@[2].method == HttpMethod::Put && r@[2].path@ == "/{id}"@,
            r@[3].method == HttpMethod::Delete && r@[3].path@ == "/{id}"@,
    {
        let mut r: Vec<RouteSpec> = Vec::new();
        r.push(RouteSpec { method: HttpMethod::Post, path: String::from_str("") });
        r.push(RouteSpec { method: HttpMethod::Get, path: String::from_str("/{id}") });
        r.push(RouteSpec { method: HttpMethod::Put, path: String::from_str("/{id}") });
        r.push(RouteSpec { method: HttpMethod::Delete, path: String::from_str("/{id}") });
        r
    }
}

impl UserRouter {
    /// The scope prefix under which the user routes are mounted.
    pub fn scope() -> (r: String)
        ensures
            r@ == "/user"@,
    {
        String::from_str("/user")
    }

    /// The route table, in declaration order: create, update, read,
    /// delete, login.
    pub fn new() -> (r: Vec<RouteSpec>)
        ensures
            r@.len() == 5,
            r@[0].method == HttpMethod::Post && r@[0].path@ == ""@,
            r@[1].method == HttpMethod::Put && r@[1].path@ == "/{id}"@,
            r@[2].method == HttpMethod::Get && r@[2].path@ == "/{id}"@,
            r@[3].method == HttpMethod::Delete && r@[3].path@ == "/{id}"@,
            r@[4].method == HttpMethod::Post && r@[4].path@ == "/login"@,
    {
        let mut r: Vec<RouteSpec> = Vec::new();
        r.push(RouteSpec { method: HttpMethod::Post, path: String::from_str("") });
        r.push(RouteSpec { method: HttpMethod::Put, path: String::from_str("/{id}") });
        r.push(RouteSpec { method: HttpMethod::Get, path: String::from_str("/{id}") });
        r.push(RouteSpec { method: HttpMethod::Delete, path: String::from_str("/{id}") });
        r.push(RouteSpec { method: HttpMethod::Post, path: String::from_str("/login") });
        r
    }
}

} // verus!
