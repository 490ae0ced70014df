//! The tables the map and the exit list are looked up in.
use vstd::prelude::*;

verus! {

/// (country, city, latitude, longitude), in hundredths of a degree. Cities that
/// actually carry VPN exits.
pub const CITIES: [(&'static str, &'static str, i32, i32); 111] = [
    ("al", "tirana", 4133, 1982),
    ("ar", "buenos aires", -3460, -5838),
    ("at", "vienna", 4821, 1637),
    ("au", "sydney", -3387, 15121),
    ("au", "melbourne", -3781, 14496),
    ("au", "brisbane", -2747, 15303),
    ("au", "perth", -3195, 11586),
    ("au", "adelaide", -3493, 13860),
    ("ba", "sarajevo", 4386, 1841),
    ("be", "brussels", 5085, 435),
    ("bg", "sofia", 4270, 2332),
    ("br", "sao paulo", -2355, -4663),
    ("ca", "toronto", 4365, -7938),
    ("ca", "montreal", 4550, -7357),
    ("ca", "vancouver", 4928, -12312),
    ("ca", "calgary", 5105, -11407),
    ("ch", "zurich", 4738, 854),
    ("ch", "geneva", 4620, 614),
    ("cl", "santiago", -3345, -7067),
    ("co", "bogota", 471, -7407),
    ("cy", "nicosia", 3519, 3338),
    ("cz", "prague", 5008, 1444),
    ("de", "frankfurt", 5011, 868),
    ("de", "berlin", 5252, 1340),
    ("de", "dusseldorf", 5123, 678),
    ("de", "munich", 4814, 1158),
    ("dk", "copenhagen", 5568, 1257),
    ("ee", "tallinn", 5944, 2475),
    ("es", "madrid", 4042, -370),
    ("es", "barcelona", 4139, 217),
    ("es", "valencia", 3947, -38),
    ("fi", "helsinki", 6017, 2494),
    ("fr", "paris", 4886, 235),
    ("fr", "marseille", 4330, 537),
    ("fr", "bordeaux", 4484, -58),
    ("fr", "lyon", 4576, 483),
    ("gb", "london", 5151, -13),
    ("gb", "manchester", 5348, -224),
    ("gb", "glasgow", 5586, -425),
    ("ge", "tbilisi", 4172, 4478),
    ("gr", "athens", 3798, 2373),
    ("hk", "hong kong", 2232, 11417),
    ("hr", "zagreb", 4581, 1598),
    ("hu", "budapest", 4750, 1904),
    ("id", "jakarta", -621, 10685),
    ("ie", "dublin", 5335, -626),
    ("il", "tel aviv", 3208, 3478),
    ("in", "mumbai", 1908, 7288),
    ("in", "delhi", 2861, 7721),
    ("in", "chennai", 1308, 8027),
    ("is", "reykjavik", 6415, -2194),
    ("it", "milan", 4546, 919),
    ("it", "rome", 4190, 1250),
    ("it", "naples", 4085, 1427),
    ("it", "palermo", 3812, 1336),
    ("jp", "tokyo", 3568, 13969),
    ("jp", "osaka", 3469, 13550),
    ("kr", "seoul", 3757, 12698),
    ("kz", "almaty", 4324, 7689),
    ("lt", "vilnius", 5469, 2528),
    ("lu", "luxembourg", 4961, 613),
    ("lv", "riga", 5695, 2411),
    ("md", "chisinau", 4701, 2886),
    ("mk", "skopje", 4199, 2143),
    ("mx", "mexico city", 1943, -9913),
    ("mx", "queretaro", 2059, -10039),
    ("my", "kuala lumpur", 314, 10169),
    ("ng", "lagos", 652, 338),
    ("nl", "amsterdam", 5237, 490),
    ("nl", "rotterdam", 5192, 448),
    ("nl", "the hague", 5208, 431),
    ("no", "oslo", 5991, 1075),
    ("no", "stavanger", 5897, 573),
    ("nz", "auckland", -3685, 17476),
    ("pe", "lima", -1205, -7704),
    ("ph", "manila", 1460, 12098),
    ("pl", "warsaw", 5223, 2101),
    ("pt", "lisbon", 3872, -914),
    ("ro", "bucharest", 4443, 2610),
    ("rs", "belgrade", 4479, 2045),
    ("se", "stockholm", 5933, 1807),
    ("se", "gothenburg", 5771, 1197),
    ("se", "malmo", 5560, 1300),
    ("sg", "singapore", 135, 10382),
    ("si", "ljubljana", 4606, 1451),
    ("sk", "bratislava", 4815, 1711),
    ("th", "bangkok", 1376, 10050),
    ("tr", "istanbul", 4101, 2898),
    ("tw", "taipei", 2503, 12157),
    ("ua", "kyiv", 5045, 3052),
    ("ae", "dubai", 2520, 5527),
    ("us", "new york", 4071, -7401),
    ("us", "los angeles", 3405, -11824),
    ("us", "chicago", 4188, -8763),
    ("us", "dallas", 3278, -9680),
    ("us", "miami", 2576, -8019),
    ("us", "seattle", 4761, -12233),
    ("us", "denver", 3974, -10498),
    ("us", "atlanta", 3375, -8439),
    ("us", "phoenix", 3345, -11207),
    ("us", "salt lake city", 4076, -11189),
    ("us", "san jose", 3734, -12189),
    ("us", "ashburn", 3904, -7749),
    ("us", "houston", 2976, -9537),
    ("us", "boston", 4236, -7106),
    ("us", "las vegas", 3617, -11514),
    ("us", "detroit", 4233, -8305),
    ("us", "secaucus", 4079, -7406),
    ("vn", "hanoi", 2103, 10585),
    ("za", "johannesburg", -2620, 2805),
    ("za", "cape town", -3392, 1842),
];

/// (country, latitude, longitude), in hundredths of a degree: the middle of each
/// country, used when the city is not in the table above.
pub const COUNTRIES: [(&'static str, i32, i32); 92] = [
    ("ae", 2342, 5385),
    ("al", 4115, 2017),
    ("am", 4007, 4504),
    ("ar", -3842, -6362),
    ("at", 4752, 1455),
    ("au", -2527, 13378),
    ("az", 4014, 4758),
    ("ba", 4392, 1768),
    ("bd", 2368, 9036),
    ("be", 5050, 447),
    ("bg", 4273, 2549),
    ("br", -1424, -5193),
    ("by", 5371, 2795),
    ("ca", 5613, -10635),
    ("ch", 4682, 823),
    ("cl", -3568, -7154),
    ("cn", 3586, 10420),
    ("co", 457, -7430),
    ("cr", 975, -8375),
    ("cy", 3513, 3343),
    ("cz", 4982, 1547),
    ("de", 5117, 1045),
    ("dk", 5626, 950),
    ("do", 1874, -7016),
    ("dz", 2803, 166),
    ("ec", -183, -7818),
    ("ee", 5860, 2501),
    ("eg", 2682, 3080),
    ("es", 4046, -375),
    ("fi", 6192, 2575),
    ("fr", 4623, 221),
    ("gb", 5538, -344),
    ("ge", 4232, 4336),
    ("gr", 3907, 2182),
    ("gt", 1578, -9023),
    ("hk", 2232, 11417),
    ("hr", 4510, 1520),
    ("hu", 4716, 1950),
    ("id", -79, 11392),
    ("ie", 5341, -824),
    ("il", 3105, 3485),
    ("in", 2059, 7896),
    ("iq", 3322, 4368),
    ("is", 6496, -1902),
    ("it", 4187, 1257),
    ("jp", 3620, 13825),
    ("ke", -2, 3791),
    ("kh", 1257, 10499),
    ("kr", 3591, 12777),
    ("kz", 4802, 6692),
    ("lb", 3385, 3586),
    ("lt", 5517, 2388),
    ("lu", 4982, 613),
    ("lv", 5688, 2460),
    ("ma", 3179, -709),
    ("md", 4741, 2837),
    ("me", 4271, 1937),
    ("mk", 4161, 2175),
    ("mt", 3594, 1438),
    ("mx", 2363, -10255),
    ("my", 421, 10198),
    ("ng", 908, 868),
    ("nl", 5213, 529),
    ("no", 6047, 847),
    ("np", 2839, 8412),
    ("nz", -4090, 17489),
    ("pa", 854, -8078),
    ("pe", -919, -7502),
    ("ph", 1288, 12177),
    ("pk", 3038, 6935),
    ("pl", 5192, 1915),
    ("pt", 3940, -822),
    ("py", -2344, -5844),
    ("ro", 4594, 2497),
    ("rs", 4402, 2101),
    ("ru", 5575, 3762),
    ("sa", 2389, 4508),
    ("se", 6013, 1864),
    ("sg", 135, 10382),
    ("si", 4615, 1499),
    ("sk", 4867, 1970),
    ("th", 1587, 10099),
    ("tn", 3389, 954),
    ("tr", 3896, 3524),
    ("tw", 2370, 12096),
    ("ua", 4838, 3117),
    ("us", 3983, -9858),
    ("uy", -3252, -5577),
    ("uz", 4138, 6459),
    ("ve", 642, -6659),
    ("vn", 1406, 10828),
    ("za", -3056, 2294),
];

/// `code<TAB>English name`, one per line: the ISO 3166-1 countries in code order,
/// then the spellings the service uses where they differ. Several lines may share
/// a code: it answers "which country is this called", not "what is this country
/// called".
pub const COUNTRY_NAMES: &'static str = "\
ad\tAndorra\n\
ae\tUnited Arab Emirates\n\
af\tAfghanistan\n\
ag\tAntigua and Barbuda\n\
ai\tAnguilla\n\
al\tAlbania\n\
am\tArmenia\n\
ao\tAngola\n\
aq\tAntarctica\n\
ar\tArgentina\n\
as\tAmerican Samoa\n\
at\tAustria\n\
au\tAustralia\n\
aw\tAruba\n\
ax\tÅland Islands\n\
az\tAzerbaijan\n\
ba\tBosnia and Herzegovina\n\
bb\tBarbados\n\
bd\tBangladesh\n\
be\tBelgium\n\
bf\tBurkina Faso\n\
bg\tBulgaria\n\
bh\tBahrain\n\
bi\tBurundi\n\
bj\tBenin\n\
bl\tSaint Barthélemy\n\
bm\tBermuda\n\
bn\tBrunei Darussalam\n\
bo\tBolivia\n\
bq\tBonaire, Sint Eustatius and Saba\n\
br\tBrazil\n\
bs\tBahamas\n\
bt\tBhutan\n\
bv\tBouvet Island\n\
bw\tBotswana\n\
by\tBelarus\n\
bz\tBelize\n\
ca\tCanada\n\
cc\tCocos (Keeling) Islands\n\
cd\tDemocratic Republic of the Congo\n\
cf\tCentral African Republic\n\
cg\tRepublic of the Congo\n\
ch\tSwitzerland\n\
ci\tCôte d'Ivoire\n\
ck\tCook Islands\n\
cl\tChile\n\
cm\tCameroon\n\
cn\tChina\n\
co\tColombia\n\
cr\tCosta Rica\n\
cu\tCuba\n\
cv\tCabo Verde\n\
cw\tCuraçao\n\
cx\tChristmas Island\n\
cy\tCyprus\n\
cz\tCzech Republic\n\
de\tGermany\n\
dj\tDjibouti\n\
dk\tDenmark\n\
dm\tDominica\n\
do\tDominican Republic\n\
dz\tAlgeria\n\
ec\tEcuador\n\
ee\tEstonia\n\
eg\tEgypt\n\
eh\tWestern Sahara\n\
er\tEritrea\n\
es\tSpain\n\
et\tEthiopia\n\
fi\tFinland\n\
fj\tFiji\n\
fk\tFalkland Islands\n\
fm\tFederated States of Micronesia\n\
fo\tFaroe Islands\n\
fr\tFrance\n\
ga\tGabon\n\
gb\tUnited Kingdom\n\
gd\tGrenada\n\
ge\tGeorgia\n\
gf\tFrench Guiana\n\
gg\tGuernsey\n\
gh\tGhana\n\
gi\tGibraltar\n\
gl\tGreenland\n\
gm\tGambia\n\
gn\tGuinea\n\
gp\tGuadeloupe\n\
gq\tEquatorial Guinea\n\
gr\tGreece\n\
gs\tSouth Georgia and the South Sandwich Islands\n\
gt\tGuatemala\n\
gu\tGuam\n\
gw\tGuinea-Bissau\n\
gy\tGuyana\n\
hk\tHong Kong\n\
hm\tHeard Island and McDonald Islands\n\
hn\tHonduras\n\
hr\tCroatia\n\
ht\tHaiti\n\
hu\tHungary\n\
id\tIndonesia\n\
ie\tIreland\n\
il\tIsrael\n\
im\tIsle of Man\n\
in\tIndia\n\
io\tBritish Indian Ocean Territory\n\
iq\tIraq\n\
ir\tIran\n\
is\tIceland\n\
it\tItaly\n\
je\tJersey\n\
jm\tJamaica\n\
jo\tJordan\n\
jp\tJapan\n\
ke\tKenya\n\
kg\tKyrgyzstan\n\
kh\tCambodia\n\
ki\tKiribati\n\
km\tComoros\n\
kn\tSaint Kitts and Nevis\n\
kp\tNorth Korea\n\
kr\tSouth Korea\n\
kw\tKuwait\n\
ky\tCayman Islands\n\
kz\tKazakhstan\n\
la\tLaos\n\
lb\tLebanon\n\
lc\tSaint Lucia\n\
li\tLiechtenstein\n\
lk\tSri Lanka\n\
lr\tLiberia\n\
ls\tLesotho\n\
lt\tLithuania\n\
lu\tLuxembourg\n\
lv\tLatvia\n\
ly\tLibya\n\
ma\tMorocco\n\
mc\tMonaco\n\
md\tMoldova\n\
me\tMontenegro\n\
mf\tSaint Martin\n\
mg\tMadagascar\n\
mh\tMarshall Islands\n\
mk\tNorth Macedonia\n\
ml\tMali\n\
mm\tMyanmar\n\
mn\tMongolia\n\
mo\tMacau\n\
mp\tNorthern Mariana Islands\n\
mq\tMartinique\n\
mr\tMauritania\n\
ms\tMontserrat\n\
mt\tMalta\n\
mu\tMauritius\n\
mv\tMaldives\n\
mw\tMalawi\n\
mx\tMexico\n\
my\tMalaysia\n\
mz\tMozambique\n\
na\tNamibia\n\
nc\tNew Caledonia\n\
ne\tNiger\n\
nf\tNorfolk Island\n\
ng\tNigeria\n\
ni\tNicaragua\n\
nl\tNetherlands\n\
no\tNorway\n\
np\tNepal\n\
nr\tNauru\n\
nu\tNiue\n\
nz\tNew Zealand\n\
om\tOman\n\
pa\tPanama\n\
pe\tPeru\n\
pf\tFrench Polynesia\n\
pg\tPapua New Guinea\n\
ph\tPhilippines\n\
pk\tPakistan\n\
pl\tPoland\n\
pm\tSaint Pierre and Miquelon\n\
pn\tPitcairn\n\
pr\tPuerto Rico\n\
ps\tState of Palestine\n\
pt\tPortugal\n\
pw\tPalau\n\
py\tParaguay\n\
qa\tQatar\n\
re\tRéunion\n\
ro\tRomania\n\
rs\tSerbia\n\
ru\tRussia\n\
rw\tRwanda\n\
sa\tSaudi Arabia\n\
sb\tSolomon Islands\n\
sc\tSeychelles\n\
sd\tSudan\n\
se\tSweden\n\
sg\tSingapore\n\
sh\tSaint Helena, Ascension and Tristan da Cunha\n\
si\tSlovenia\n\
sj\tSvalbard and Jan Mayen\n\
sk\tSlovakia\n\
sl\tSierra Leone\n\
sm\tSan Marino\n\
sn\tSenegal\n\
so\tSomalia\n\
sr\tSuriname\n\
ss\tSouth Sudan\n\
st\tSao Tome and Principe\n\
sv\tEl Salvador\n\
sx\tSint Maarten\n\
sy\tSyria\n\
sz\tEswatini\n\
tc\tTurks and Caicos Islands\n\
td\tChad\n\
tf\tFrench Southern Territories\n\
tg\tTogo\n\
th\tThailand\n\
tj\tTajikistan\n\
tk\tTokelau\n\
tl\tTimor-Leste\n\
tm\tTurkmenistan\n\
tn\tTunisia\n\
to\tTonga\n\
tr\tTürkiye\n\
tt\tTrinidad and Tobago\n\
tv\tTuvalu\n\
tw\tTaiwan\n\
tz\tTanzania\n\
ua\tUkraine\n\
ug\tUganda\n\
um\tUnited States Minor Outlying Islands\n\
us\tUnited States of America\n\
uy\tUruguay\n\
uz\tUzbekistan\n\
va\tHoly See\n\
vc\tSaint Vincent and the Grenadines\n\
ve\tVenezuela\n\
vg\tVirgin Islands (British)\n\
vi\tVirgin Islands (U.S.)\n\
vn\tVietnam\n\
vu\tVanuatu\n\
wf\tWallis and Futuna\n\
ws\tSamoa\n\
ye\tYemen\n\
yt\tMayotte\n\
za\tSouth Africa\n\
zm\tZambia\n\
zw\tZimbabwe\n\
us\tUnited States\n\
tr\tTurkey\n\
cz\tCzechia\n\
nl\tThe Netherlands\n\
bn\tBrunei\n\
cd\tCongo (DRC)\n\
";

} // verus!
