//! The per-message core of a connection handler: decode one command,
//! validate it against the session, apply it to the catalog, and encode the
//! response frame where the protocol defines one.
//!
//! The whole step is modelled by the pure transition function
//! [`spec_dispatch`]; the executable [`dispatch`] and [`handle_message`]
//! are proved to follow it exactly. The laws at the bottom are consequences
//! a caller can rely on: racing creations of one name leave exactly one
//! winner, and a failed open leaves a session idle.

use vstd::prelude::*;

use crate::catalog::{
    count_dbs, db_index, db_names, has_db, lemma_count_dbs_zero, Catalog, DatabaseView,
};
use crate::command::{Command, CommandView};
use crate::errors::{CatalogError, ProtocolError};
use crate::frame::{encode_frame, spec_frame};
use crate::request;
use crate::response::{spec_serialise_response, Response, ResponseView};
use crate::session::Session;

verus! {

/// An error met while handling one message: a protocol error from the
/// decoder, or a catalog error from dispatch. Both are non-fatal for the
/// connection; they are logged and the next frame is read as usual.
#[derive(Clone, Copy, Debug, PartialEq, Eq, Structural)]
pub enum ServerError {
    Protocol(ProtocolError),
    Catalog(CatalogError),
}

/// The outcome of dispatching one command: the response (where the protocol
/// defines one), the error (where the command could not be carried out),
/// and the session and catalog after the step.
#[verifier::ext_equal]
pub ghost struct StepResult {
    pub response: Option<ResponseView>,
    pub err: Option<CatalogError>,
    pub session: Option<int>,
    pub catalog: Seq<DatabaseView>,
}

/// The transition function of the service: what one command does to the
/// session and the catalog, and what it answers.
///
/// `CreateDatabase` and `ListDatabases` are session-independent;
/// `OpenDatabase` moves the session onto the named database and answers
/// nothing; `CreateTable` and `ListTables` need an open database. A failed
/// open or a table command without an open database answers nothing, as
/// the wire protocol defines no response for those cases.
pub open spec fn spec_dispatch(
    cmd: CommandView,
    sess: Option<int>,
    cat: Seq<DatabaseView>,
) -> StepResult {
    match cmd {
        CommandView::CreateDatabase { name } => {
            if has_db(cat, name) {
                StepResult {
                    response: Some(ResponseView::CreateDatabase { success: false }),
                    err: Some(CatalogError::DuplicateName),
                    session: sess,
                    catalog: cat,
                }
            } else {
                StepResult {
                    response: Some(ResponseView::CreateDatabase { success: true }),
                    err: None,
                    session: sess,
                    catalog: cat.push(DatabaseView { name, tables: Seq::empty() }),
                }
            }
        },
        CommandView::OpenDatabase { name } => {
            if has_db(cat, name) {
                StepResult {
                    response: None,
                    err: None,
                    session: Some(db_index(cat, name)),
                    catalog: cat,
                }
            } else {
                StepResult {
                    response: None,
                    err: Some(CatalogError::NotFound),
                    session: sess,
                    catalog: cat,
                }
            }
        },
        CommandView::CreateTable { name } => {
            match sess {
                None => StepResult {
                    response: None,
                    err: Some(CatalogError::NoOpenDatabase),
                    session: sess,
                    catalog: cat,
                },
                Some(h) => {
                    if !(0 <= h < cat.len()) {
                        StepResult {
                            response: None,
                            err: Some(CatalogError::InvalidHandle),
                            session: sess,
                            catalog: cat,
                        }
                    } else if cat[h].has_table(name) {
                        StepResult {
                            response: Some(ResponseView::CreateTable { success: false }),
                            err: Some(CatalogError::DuplicateName),
                            session: sess,
                            catalog: cat,
                        }
                    } else {
                        StepResult {
                            response: Some(ResponseView::CreateTable { success: true }),
                            err: None,
                            session: sess,
                            catalog: cat.update(
                                h,
                                DatabaseView { name: cat[h].name, tables: cat[h].tables.push(name) },
                            ),
                        }
                    }
                },
            }
        },
        CommandView::ListDatabases => StepResult {
            response: Some(ResponseView::ListDatabases { names: db_names(cat) }),
            err: None,
            session: sess,
            catalog: cat,
        },
        CommandView::ListTables => {
            match sess {
                None => StepResult {
                    response: None,
                    err: Some(CatalogError::NoOpenDatabase),
                    session: sess,
                    catalog: cat,
                },
                Some(h) => {
                    if !(0 <= h < cat.len()) {
                        StepResult {
                            response: None,
                            err: Some(CatalogError::InvalidHandle),
                            session: sess,
                            catalog: cat,
                        }
                    } else {
                        StepResult {
                            response: Some(ResponseView::ListTables { names: cat[h].tables }),
                            err: None,
                            session: sess,
                            catalog: cat,
                        }
                    }
                },
            }
        },
    }
}

/// Applies one decoded command to the session and the catalog, following
/// [`spec_dispatch`] exactly.
pub fn dispatch(cmd: Command, session: &mut Session, catalog: &mut Catalog) -> (r: (
    Option<Response>,
    Option<CatalogError>,
))
    requires
        old(catalog).wf(),
        old(session).wf(old(catalog)@),
        cmd@.wf(),
    ensures
        final(catalog).wf(),
        final(session).wf(final(catalog)@),
        old(catalog)@.len() <= final(catalog)@.len(),
        ({
            let d = spec_dispatch(cmd@, old(session)@, old(catalog)@);
            &&& final(session)@ == d.session
            &&& final(catalog)@ == d.catalog
            &&& r.1 == d.err
            &&& (r.0 is Some <==> d.response is Some)
            &&& (r.0 matches Some(resp) ==> resp@ == d.response->0)
        }),
{
    match cmd {
        Command::CreateDatabase { name } => {
            match catalog.create_database(name) {
                Ok(_) => (Some(Response::CreateDatabase { success: true }), None),
                Err(e) => (Some(Response::CreateDatabase { success: false }), Some(e)),
            }
        },
        Command::OpenDatabase { name } => {
            match catalog.find_database(&name) {
                Some(h) => {
                    proof {
                        let i = db_index(old(catalog)@, name@);
                        assert(0 <= i < old(catalog)@.len() && old(catalog)@[i].name == name@);
                        if i != h as int {
                            assert(old(catalog)@[i].name != old(catalog)@[h as int].name);
                        }
                    }
                    session.set_open(h);
                    (None, None)
                },
                None => (None, Some(CatalogError::NotFound)),
            }
        },
        Command::CreateTable { name, cols: _ } => {
            match session.current() {
                None => (None, Some(CatalogError::NoOpenDatabase)),
                Some(h) => {
                    match catalog.create_table(h, name) {
                        Ok(_) => (Some(Response::CreateTable { success: true }), None),
                        Err(e) => {
                            if matches!(e, CatalogError::DuplicateName) {
                                (Some(Response::CreateTable { success: false }), Some(e))
                            } else {
                                // Unreachable: the session invariant keeps
                                // the handle in range.
                                proof {
                                    assert(false);
                                }
                                (None, Some(e))
                            }
                        },
                    }
                },
            }
        },
        Command::ListDatabases => {
            let names = catalog.list_database_names();
            (Some(Response::ListDatabases { names }), None)
        },
        Command::ListTables => {
            match session.current() {
                None => (None, Some(CatalogError::NoOpenDatabase)),
                Some(h) => {
                    match catalog.list_table_names(h) {
                        Ok(names) => (Some(Response::ListTables { names }), None),
                        Err(e) => {
                            // Unreachable: the session invariant keeps the
                            // handle in range.
                            proof {
                                assert(false);
                            }
                            (None, Some(e))
                        },
                    }
                },
            }
        },
    }
}

/// Handles one frame payload end to end: decode, dispatch, and encode the
/// response frame where one is defined and fits the frame format.
///
/// On a protocol error nothing changes and nothing is answered; the
/// connection stays usable for the next frame. The catalog never shrinks,
/// so handles held by other sessions stay valid across this call.
pub fn handle_message(msg: &[u8], session: &mut Session, catalog: &mut Catalog) -> (r: (
    Option<Vec<u8>>,
    Option<ServerError>,
))
    requires
        old(catalog).wf(),
        old(session).wf(old(catalog)@),
    ensures
        final(catalog).wf(),
        final(session).wf(final(catalog)@),
        old(catalog)@.len() <= final(catalog)@.len(),
        match request::spec_parse_request(msg@) {
            Err(e) => {
                &&& r.0 is None
                &&& r.1 == Some(ServerError::Protocol(e))
                &&& final(session)@ == old(session)@
                &&& final(catalog)@ == old(catalog)@
            },
            Ok(cmd) => ({
                let d = spec_dispatch(cmd, old(session)@, old(catalog)@);
                &&& final(session)@ == d.session
                &&& final(catalog)@ == d.catalog
                &&& r.1 == (match d.err {
                    Some(e) => Some(ServerError::Catalog(e)),
                    None => None,
                })
                &&& (match d.response {
                    Some(resp) => {
                        if resp.wf() && spec_serialise_response(resp).len() <= u32::MAX {
                            r.0 matches Some(bytes) && bytes@ == spec_frame(
                                spec_serialise_response(resp),
                            )
                        } else {
                            r.0 is None
                        }
                    },
                    None => r.0 is None,
                })
            }),
        },
{
    match request::parse(msg) {
        Err(e) => (None, Some(ServerError::Protocol(e))),
        Ok(cmd) => {
            let (resp_opt, err) = dispatch(cmd, session, catalog);
            let out = match resp_opt {
                None => None,
                Some(resp) => {
                    if resp.check_wf() {
                        let payload = crate::response::serialise(&resp);
                        if payload.len() <= u32::MAX as usize {
                            Some(encode_frame(payload.as_slice()))
                        } else {
                            None
                        }
                    } else {
                        None
                    }
                },
            };
            let mapped = match err {
                Some(e) => Some(ServerError::Catalog(e)),
                None => None,
            };
            (out, mapped)
        },
    }
}

/// Two creations of one database name, from any two sessions, applied in
/// either order one after the other: the first succeeds, the second fails
/// with a duplicate-name error, and the catalog holds exactly one database
/// of that name — no lost update and no duplicate entry.
pub proof fn lemma_racing_create_database(
    name: Seq<char>,
    s1: Option<int>,
    s2: Option<int>,
    cat: Seq<DatabaseView>,
)
    requires
        !has_db(cat, name),
    ensures
        ({
            let d1 = spec_dispatch(CommandView::CreateDatabase { name }, s1, cat);
            let d2 = spec_dispatch(CommandView::CreateDatabase { name }, s2, d1.catalog);
            &&& d1.err is None
            &&& d1.response == Some(ResponseView::CreateDatabase { success: true })
            &&& d2.err == Some(CatalogError::DuplicateName)
            &&& d2.response == Some(ResponseView::CreateDatabase { success: false })
            &&& d2.catalog == d1.catalog
            &&& count_dbs(d1.catalog, name) == 1
        }),
{
    let d1 = spec_dispatch(CommandView::CreateDatabase { name }, s1, cat);
    let entry = DatabaseView { name, tables: Seq::empty() };
    assert(d1.catalog == cat.push(entry));
    assert(d1.catalog[cat.len() as int].name == name);
    assert(has_db(d1.catalog, name));
    lemma_count_dbs_zero(cat, name);
    assert(cat.push(entry).drop_last() =~= cat);
    assert(cat.push(entry).last() == entry);
    assert(count_dbs(d1.catalog, name) == count_dbs(cat, name) + 1);
}

/// Creating a database and then creating it again from the same session:
/// the second call fails with a duplicate-name error and the catalog holds
/// exactly one database of that name.
pub proof fn lemma_create_database_twice(name: Seq<char>, sess: Option<int>, cat: Seq<DatabaseView>)
    requires
        !has_db(cat, name),
    ensures
        ({
            let d1 = spec_dispatch(CommandView::CreateDatabase { name }, sess, cat);
            let d2 = spec_dispatch(CommandView::CreateDatabase { name }, sess, d1.catalog);
            &&& d1.err is None
            &&& d2.err == Some(CatalogError::DuplicateName)
            &&& d2.catalog == d1.catalog
            &&& count_dbs(d1.catalog, name) == 1
        }),
{
    lemma_racing_create_database(name, sess, sess, cat);
}

/// Listing follows creation order: creating three databases of distinct
/// names in an empty catalog and then listing returns exactly those names,
/// in that order.
pub proof fn lemma_listing_follows_creation_order(
    n1: Seq<char>,
    n2: Seq<char>,
    n3: Seq<char>,
    sess: Option<int>,
)
    requires
        n1 != n2,
        n1 != n3,
        n2 != n3,
    ensures
        ({
            let cat0 = Seq::<DatabaseView>::empty();
            let d1 = spec_dispatch(CommandView::CreateDatabase { name: n1 }, sess, cat0);
            let d2 = spec_dispatch(CommandView::CreateDatabase { name: n2 }, sess, d1.catalog);
            let d3 = spec_dispatch(CommandView::CreateDatabase { name: n3 }, sess, d2.catalog);
            &&& d1.err is None
            &&& d2.err is None
            &&& d3.err is None
            &&& db_names(d3.catalog) == seq![n1, n2, n3]
        }),
{
    let cat0 = Seq::<DatabaseView>::empty();
    let d1 = spec_dispatch(CommandView::CreateDatabase { name: n1 }, sess, cat0);
    assert(!has_db(cat0, n1));
    let d2 = spec_dispatch(CommandView::CreateDatabase { name: n2 }, sess, d1.catalog);
    assert(!has_db(d1.catalog, n2)) by {
        assert(forall|i: int| 0 <= i < d1.catalog.len() ==> d1.catalog[i].name == n1);
    }
    let d3 = spec_dispatch(CommandView::CreateDatabase { name: n3 }, sess, d2.catalog);
    assert(!has_db(d2.catalog, n3)) by {
        assert(forall|i: int|
            0 <= i < d2.catalog.len() ==> d2.catalog[i].name == n1 || d2.catalog[i].name == n2);
    }
    assert(db_names(d3.catalog) =~= seq![n1, n2, n3]);
}

/// Opening a database that does not exist leaves the session idle, and a
/// table creation on that session then fails for want of an open database;
/// neither step touches the catalog or answers anything.
pub proof fn lemma_open_missing_then_create_table(
    open_name: Seq<char>,
    table_name: Seq<char>,
    cat: Seq<DatabaseView>,
)
    requires
        !has_db(cat, open_name),
    ensures
        ({
            let d1 = spec_dispatch(CommandView::OpenDatabase { name: open_name }, None, cat);
            let d2 = spec_dispatch(CommandView::CreateTable { name: table_name }, d1.session, d1.catalog);
            &&& d1.session is None
            &&& d1.err == Some(CatalogError::NotFound)
            &&& d1.response is None
            &&& d1.catalog == cat
            &&& d2.session is None
            &&& d2.err == Some(CatalogError::NoOpenDatabase)
            &&& d2.response is None
            &&& d2.catalog == cat
        }),
{
}

} // verus!
