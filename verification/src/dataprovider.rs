//! Where ratings come from.

use vstd::prelude::*;
use vstd::string::StringExecFns;
use crate::ratings::{Id, RatingContainer, RatingContainerBuilder};

verus! {

/// A source of ratings. The engine asks it for a fresh container each
/// time it trains.
pub trait RatingDataProvider<T> {
    fn get(&self) -> RatingContainer<T>;
}

/// Ratings that are given up front, for trying the engine out.
pub struct UnitTestDataProvider<T> {
    data: Vec<(Id, Id, T)>,
}

impl<T> View for UnitTestDataProvider<T> {
    type V = Seq<(Id, Id, T)>;

    /// The ratings that the provider was made with.
    closed spec fn view(&self) -> Seq<(Id, Id, T)> {
        self.data@
    }
}

impl<T> UnitTestDataProvider<T> {
    pub fn new(data: Vec<(Id, Id, T)>) -> (provider: Self)
        ensures
            provider@ == data@,
    {
        UnitTestDataProvider { data }
    }
}

impl<T: Copy> RatingDataProvider<T> for UnitTestDataProvider<T> {
    /// A container that holds exactly the ratings that the provider was
    /// made with.
    fn get(&self) -> (container: RatingContainer<T>)
        ensures
            container.holds(self@),
    {
        let mut rating_builder = RatingContainerBuilder::new();
        let mut i: usize = 0;
        while i < self.data.len()
            invariant
                i <= self.data.len(),
                rating_builder@ == self.data@.take(i as int),
            decreases self.data.len() - i,
        {
            let d = self.data[i];
            rating_builder.add_rating(d.0, d.1, d.2);
            proof {
                assert(self.data@.take(i + 1) =~= self.data@.take(i as int).push(d));
            }
            i = i + 1;
        }
        proof {
            assert(self.data@.take(self.data@.len() as int) =~= self.data@);
        }
        rating_builder.build()
    }
}

/// The text of the query that selects the three named columns from the
/// named table, narrowed by the condition if there is one.
pub open spec fn select_text(
    where_clause: Seq<char>,
    aid_name: Seq<char>,
    uid_name: Seq<char>,
    rating_name: Seq<char>,
    table_name: Seq<char>,
) -> Seq<char> {
    "SELECT "@ + aid_name + ", "@ + uid_name + ", "@ + rating_name + " FROM "@ + table_name + " "@ + (
    if where_clause.len() == 0 {
        Seq::<char>::empty()
    } else {
        "WHERE "@ + where_clause
    })
}

/// Ratings that are kept in a table of a SQL database: where the database
/// is, and the query that fetches the ratings.
pub struct SQLDataProvider {
    connection_string: String,
    query: String,
}

impl SQLDataProvider {
    /// Where the database is.
    pub closed spec fn spec_connection_string(&self) -> Seq<char> {
        self.connection_string@
    }

    /// The query that fetches the ratings.
    pub closed spec fn spec_query(&self) -> Seq<char> {
        self.query@
    }

    pub fn new(
        connection_string: &str,
        where_clause: &str,
        aid_name: &str,
        uid_name: &str,
        rating_name: &str,
        table_name: &str,
    ) -> (provider: Self)
        ensures
            provider.spec_connection_string() == connection_string@,
            provider.spec_query() == select_text(
                where_clause@,
                aid_name@,
                uid_name@,
                rating_name@,
                table_name@,
            ),
    {
        let mut query = "SELECT ".to_owned();
        query.append(aid_name);
        query.append(", ");
        query.append(uid_name);
        query.append(", ");
        query.append(rating_name);
        query.append(" FROM ");
        query.append(table_name);
        query.append(" ");
        if !where_clause.is_empty() {
            query.append("WHERE ");
            query.append(where_clause);
            proof {
                assert(query@ =~= select_text(
                    where_clause@,
                    aid_name@,
                    uid_name@,
                    rating_name@,
                    table_name@,
                ));
            }
        } else {
            proof {
                assert(query@ =~= select_text(
                    where_clause@,
                    aid_name@,
                    uid_name@,
                    rating_name@,
                    table_name@,
                ));
            }
        }
        Self { connection_string: connection_string.to_owned(), query }
    }

    /// Where the database is.
    pub fn connection_string(&self) -> (s: &str)
        ensures
            s@ == self.spec_connection_string(),
    {
        self.connection_string.as_str()
    }

    /// The query that fetches the ratings.
    pub fn query(&self) -> (s: &str)
        ensures
            s@ == self.spec_query(),
    {
        self.query.as_str()
    }
}

/// Ratings that are kept in a directory of CSV files, one file per item.
pub struct TestDataCsvProvider {
    path: String,
}

impl TestDataCsvProvider {
    /// The directory that holds the files.
    pub closed spec fn spec_path(&self) -> Seq<char> {
        self.path@
    }

    pub fn new(path: &str) -> (provider: Self)
        ensures
            provider.spec_path() == path@,
    {
        Self { path: path.to_owned() }
    }

    /// The directory that holds the files.
    pub fn path(&self) -> (s: &str)
        ensures
            s@ == self.spec_path(),
    {
        self.path.as_str()
    }
}

} // verus!
